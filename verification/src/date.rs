//! Calendar dates and instants, as the pipeline needs them.

use vstd::prelude::*;

verus! {

/// Whether `year` is a leap year of the proleptic Gregorian calendar.
pub open spec fn is_leap_year(year: int) -> bool {
    year % 4 == 0 && (year % 100 != 0 || year % 400 == 0)
}

/// The number of days of `month` in `year`.
pub open spec fn days_in_month(year: int, month: int) -> int {
    if month == 2 {
        if is_leap_year(year) {
            29
        } else {
            28
        }
    } else if month == 4 || month == 6 || month == 9 || month == 11 {
        30
    } else {
        31
    }
}

/// Whether the calendar has a day `day` in month `month` of `year`.
pub open spec fn is_calendar_date(year: int, month: int, day: int) -> bool {
    1 <= month <= 12 && 1 <= day <= days_in_month(year, month)
}

/// The first second, counted from 1970-01-01T00:00:00Z, of the year 0.
pub const FIRST_SECOND: i64 = -62_167_219_200;

/// The last second, counted from 1970-01-01T00:00:00Z, of the year 9999.
pub const LAST_SECOND: i64 = 253_402_300_799;

/// Whether an instant, in seconds from 1970-01-01T00:00:00Z, falls in the
/// years 0 to 9999, the years that an RFC 2822 date can name.
pub open spec fn is_writable_instant(seconds: int) -> bool {
    FIRST_SECOND <= seconds <= LAST_SECOND
}

/// The second, counted from 1970-01-01T00:00:00Z, at which the given day
/// starts in UTC.
pub uninterp spec fn unix_midnight(year: int, month: int, day: int) -> int;

/// The RFC 2822 text of an instant in UTC, given in seconds from
/// 1970-01-01T00:00:00Z.
pub uninterp spec fn rfc2822_utc(seconds: int) -> Seq<char>;

/// A day of the calendar, without a time of day.
#[derive(Clone, Copy, Debug, PartialEq, Eq, Structural)]
pub struct Date {
    pub year: i32,
    pub month: u32,
    pub day: u32,
}

impl Date {
    /// A date of the years 0 to 9999 that the calendar has.
    pub open spec fn wf(self) -> bool {
        &&& 0 <= self.year <= 9999
        &&& is_calendar_date(self.year as int, self.month as int, self.day as int)
    }

    /// A number that grows with the date: later dates have larger ranks.
    pub open spec fn rank(self) -> int {
        self.year * 10_000 + self.month * 100 + self.day
    }

    /// The date `year`-`month`-`day`, if the calendar has it in one of the
    /// years 0 to 9999.
    pub fn from_ymd(year: i32, month: u32, day: u32) -> (date: Option<Date>)
        ensures
            date is Some <==> (Date { year, month, day }).wf(),
            date matches Some(d) ==> d == (Date { year, month, day }),
    {
        if year < 0 || year > 9999 {
            return None;
        }
        match midnight_seconds(year, month, day) {
            Some(_) => Some(Date { year, month, day }),
            None => None,
        }
    }

    /// Tells whether this date is well-formed.
    pub fn check(&self) -> (valid: bool)
        ensures
            valid == self.wf(),
    {
        Date::from_ymd(self.year, self.month, self.day).is_some()
    }

    /// The second at which this day starts in UTC.
    pub fn midnight(&self) -> (seconds: i64)
        requires
            self.wf(),
        ensures
            seconds == unix_midnight(self.year as int, self.month as int, self.day as int),
            is_writable_instant(seconds as int),
    {
        midnight_seconds(self.year, self.month, self.day).unwrap()
    }

    /// The RFC 2822 text of the first second of this day in UTC.
    pub fn rfc2822(&self) -> (text: String)
        requires
            self.wf(),
        ensures
            text@ == rfc2822_utc(
                unix_midnight(self.year as int, self.month as int, self.day as int),
            ),
    {
        write_rfc2822(self.midnight())
    }

    /// Whether this date comes strictly before `other`.
    pub fn is_before(&self, other: &Date) -> (before: bool)
        ensures
            before == (self.rank() < other.rank()),
    {
        let mine: i64 = self.year as i64 * 10_000 + self.month as i64 * 100 + self.day as i64;
        let theirs: i64 = other.year as i64 * 10_000 + other.month as i64 * 100
            + other.day as i64;
        mine < theirs
    }
}

/// `chrono::NaiveDate::from_ymd_opt`, followed by the Unix timestamp of the
/// day's first second in UTC. Claimed of it: for a year from 0 to 9999 the date
/// is made exactly when the proleptic Gregorian calendar has that day, and the
/// timestamp then lies within the years 0 to 9999.
#[verifier::external_body]
fn midnight_seconds(year: i32, month: u32, day: u32) -> (seconds: Option<i64>)
    requires
        0 <= year <= 9999,
    ensures
        seconds is Some <==> is_calendar_date(year as int, month as int, day as int),
        seconds matches Some(s) ==> s == unix_midnight(year as int, month as int, day as int)
            && is_writable_instant(s as int),
{
    chrono::NaiveDate::from_ymd_opt(year, month, day).map(
        |date| date.and_time(chrono::NaiveTime::MIN).and_utc().timestamp(),
    )
}

/// `chrono::DateTime::from_timestamp` followed by `to_rfc2822`, which panics
/// outside the years 0 to 9999; within them the text depends on the instant
/// alone.
#[verifier::external_body]
fn write_rfc2822(seconds: i64) -> (text: String)
    requires
        is_writable_instant(seconds as int),
    ensures
        text@ == rfc2822_utc(seconds as int),
{
    chrono::DateTime::from_timestamp(seconds, 0).unwrap().to_rfc2822()
}

/// The RFC 2822 text of the instant `seconds` in UTC, or `None` when the
/// instant lies outside the years 0 to 9999.
pub fn format_rfc2822(seconds: i64) -> (text: Option<String>)
    ensures
        text is Some <==> is_writable_instant(seconds as int),
        text matches Some(t) ==> t@ == rfc2822_utc(seconds as int),
{
    if FIRST_SECOND <= seconds && seconds <= LAST_SECOND {
        Some(write_rfc2822(seconds))
    } else {
        None
    }
}

} // verus!
