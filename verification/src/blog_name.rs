//! The names of blog entry files: `YYYY-MM-DD-slug`.

use vstd::prelude::*;
use crate::date::{is_calendar_date, Date};
use crate::error::Error;

verus! {

/// Whether `c` is one of the digits `0` to `9`.
pub open spec fn is_digit(c: char) -> bool {
    '0' as u32 <= c as u32 <= '9' as u32
}

/// Whether `text` consists of digits only.
pub open spec fn all_digits(text: Seq<char>) -> bool {
    forall|i: int| 0 <= i < text.len() ==> is_digit(#[trigger] text[i])
}

/// The number that the digits of `text` write in base ten.
pub open spec fn number(text: Seq<char>) -> int
    decreases text.len(),
{
    if text.len() == 0 {
        0
    } else {
        number(text.drop_last()) * 10 + (text.last() as u32 - '0' as u32)
    }
}

/// Whether `name` has the shape `dddd-dd-dd-` followed by at least one
/// character, where each `d` is a digit.
pub open spec fn has_date_shape(name: Seq<char>) -> bool {
    &&& name.len() >= 12
    &&& all_digits(name.subrange(0, 4))
    &&& name[4] == '-'
    &&& all_digits(name.subrange(5, 7))
    &&& name[7] == '-'
    &&& all_digits(name.subrange(8, 10))
    &&& name[10] == '-'
}

/// The publish date and the slug that the blog entry name `name` carries, or
/// `None` when it is not of the form `YYYY-MM-DD-slug` or names a day that the
/// calendar does not have. The slug is everything behind the third hyphen,
/// further hyphens included.
pub open spec fn dated_name(name: Seq<char>) -> Option<(Date, Seq<char>)> {
    let year = number(name.subrange(0, 4));
    let month = number(name.subrange(5, 7));
    let day = number(name.subrange(8, 10));
    if has_date_shape(name) && is_calendar_date(year, month, day) {
        Some((Date { year: year as i32, month: month as u32, day: day as u32 }, name.skip(11)))
    } else {
        None
    }
}

/// Reads the characters of `name` from `from` up to `to` as a number.
fn read_number(name: &str, from: usize, to: usize) -> (value: Option<u32>)
    requires
        from <= to <= name@.len(),
        to - from <= 4,
    ensures
        value is Some <==> all_digits(name@.subrange(from as int, to as int)),
        value matches Some(v) ==> v == number(name@.subrange(from as int, to as int)) && v
            <= 9999,
{
    let ghost text = name@.subrange(from as int, to as int);
    let mut value: u32 = 0;
    let mut i: usize = from;
    proof {
        assert(text.take(0).len() == 0);
    }
    while i < to
        invariant
            from <= i <= to <= name@.len(),
            to - from <= 4,
            text == name@.subrange(from as int, to as int),
            all_digits(text.take(i - from)),
            value == number(text.take(i - from)),
            i - from == 0 ==> value == 0,
            i - from == 1 ==> value <= 9,
            i - from == 2 ==> value <= 99,
            i - from == 3 ==> value <= 999,
            i - from == 4 ==> value <= 9999,
        decreases to - i,
    {
        let c = name.get_char(i);
        proof {
            assert(text[i - from] == c);
            assert(text.take(i - from + 1).drop_last() == text.take(i - from));
            assert(text.take(i - from + 1).last() == c);
        }
        if !('0' <= c && c <= '9') {
            proof {
                assert(!is_digit(text[i - from]));
            }
            return None;
        }
        value = value * 10 + (c as u32 - '0' as u32);
        proof {
            let longer = text.take(i - from + 1);
            assert forall|k: int| 0 <= k < longer.len() implies is_digit(#[trigger] longer[k]) by {
                if k < i - from {
                    assert(longer[k] == text.take(i - from)[k]);
                }
            }
        }
        i += 1;
    }
    proof {
        assert(text.take(to - from) == text);
    }
    Some(value)
}

/// The failure of a name that is no blog entry name.
fn invalid(name: &str) -> (result: Result<(Date, String), Error>)
    ensures
        result matches Err(Error::InvalidBlogFilename { name: n }) && n@ == name@,
{
    Err(Error::InvalidBlogFilename { name: String::from_str(name) })
}

/// Parses the name of a blog entry file, given without its extension.
///
/// The name must be four digits, a hyphen, two digits, a hyphen, two digits, a
/// hyphen and a slug of at least one character; the three numbers must be the
/// year, month and day of a day that the calendar has. The slug is returned as
/// written. Any other name is an error that carries the name.
pub fn parse_blog_file_name(name: &str) -> (result: Result<(Date, String), Error>)
    ensures
        match dated_name(name@) {
            Some((date, slug)) => result matches Ok((d, s)) && d == date && s@ == slug
                && d.wf(),
            None => result matches Err(Error::InvalidBlogFilename { name: n }) && n@
                == name@,
        },
{
    let n = name.unicode_len();
    if n < 12 {
        return invalid(name);
    }
    if name.get_char(4) != '-' || name.get_char(7) != '-' || name.get_char(10) != '-' {
        return invalid(name);
    }
    let year = match read_number(name, 0, 4) {
        Some(year) => year,
        None => { return invalid(name); },
    };
    let month = match read_number(name, 5, 7) {
        Some(month) => month,
        None => { return invalid(name); },
    };
    let day = match read_number(name, 8, 10) {
        Some(day) => day,
        None => { return invalid(name); },
    };
    match Date::from_ymd(year as i32, month, day) {
        Some(date) => {
            let slug = name.substring_char(11, n);
            proof {
                assert(name@.subrange(11, n as int) == name@.skip(11));
            }
            Ok((date, String::from_str(slug)))
        },
        None => invalid(name),
    }
}

} // verus!
