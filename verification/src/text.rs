//! Character-level helpers on strings, with their meaning over `Seq<char>`.

use vstd::prelude::*;

verus! {

/// The pieces of `s` between occurrences of `sep`, in order. A string without
/// `sep` is its own single piece, so the result is never empty.
pub open spec fn pieces(s: Seq<char>, sep: char) -> Seq<Seq<char>>
    decreases s.len(),
{
    if s.len() == 0 {
        seq![Seq::<char>::empty()]
    } else if s.last() == sep {
        pieces(s.drop_last(), sep).push(Seq::<char>::empty())
    } else {
        let before = pieces(s.drop_last(), sep);
        before.drop_last().push(before.last().push(s.last()))
    }
}

/// The character sequences of a list of string slices.
pub open spec fn views(parts: Seq<&str>) -> Seq<Seq<char>> {
    parts.map_values(|p: &str| p@)
}

/// Every string has at least one piece.
pub proof fn lemma_pieces_nonempty(s: Seq<char>, sep: char)
    ensures
        pieces(s, sep).len() >= 1,
    decreases s.len(),
{
    if s.len() > 0 {
        lemma_pieces_nonempty(s.drop_last(), sep);
    }
}

/// A string without `/` is its own single piece.
pub proof fn lemma_pieces_of_segment(s: Seq<char>)
    requires
        !s.contains('/'),
    ensures
        pieces(s, '/') == seq![s],
    decreases s.len(),
{
    if s.len() == 0 {
        assert(s =~= Seq::<char>::empty());
    } else {
        let before = s.drop_last();
        assert(s[s.len() - 1] == s.last());
        assert forall|i: int| 0 <= i < before.len() implies before[i] != '/' by {
            assert(s[i] == before[i]);
        }
        lemma_pieces_of_segment(before);
        assert(s.last() != '/');
        assert(before.push(s.last()) =~= s);
        assert(seq![before].drop_last() =~= Seq::<Seq<char>>::empty());
        assert(seq![before].last() == before);
        assert(pieces(s, '/') =~= seq![s]);
    }
}

/// The pieces of two strings joined by `/` are the pieces of the first, then
/// those of the second.
pub proof fn lemma_pieces_of_joined(a: Seq<char>, b: Seq<char>)
    ensures
        pieces(a + seq!['/'] + b, '/') == pieces(a, '/') + pieces(b, '/'),
    decreases b.len(),
{
    let whole = a + seq!['/'] + b;
    if b.len() == 0 {
        assert(whole.drop_last() =~= a);
        assert(pieces(b, '/') =~= seq![Seq::<char>::empty()]);
        assert(pieces(whole, '/') =~= pieces(a, '/') + pieces(b, '/'));
    } else {
        let shorter = b.drop_last();
        assert(whole.drop_last() =~= a + seq!['/'] + shorter);
        assert(whole.last() == b.last());
        lemma_pieces_of_joined(a, shorter);
        lemma_pieces_nonempty(shorter, '/');
        assert(pieces(whole, '/') =~= pieces(a, '/') + pieces(b, '/'));
    }
}

/// No piece holds the separator.
pub proof fn lemma_pieces_hold_no_separator(s: Seq<char>, k: int)
    requires
        0 <= k < pieces(s, '/').len(),
    ensures
        !pieces(s, '/')[k].contains('/'),
    decreases s.len(),
{
    if s.len() > 0 {
        let before = pieces(s.drop_last(), '/');
        lemma_pieces_nonempty(s.drop_last(), '/');
        if k < before.len() - 1 {
            lemma_pieces_hold_no_separator(s.drop_last(), k);
        } else if s.last() != '/' {
            lemma_pieces_hold_no_separator(s.drop_last(), before.len() - 1);
            let piece = before.last().push(s.last());
            assert(pieces(s, '/')[k] == piece);
            if piece.contains('/') {
                let at = choose|at: int| 0 <= at < piece.len() && piece[at] == '/';
                assert(before.last()[at] == '/');
            }
        } else if k < before.len() {
            lemma_pieces_hold_no_separator(s.drop_last(), k);
        }
    }
}

/// Splits `s` at every occurrence of `sep`.
pub fn split<'a>(s: &'a str, sep: char) -> (parts: Vec<&'a str>)
    ensures
        views(parts@) == pieces(s@, sep),
{
    let n = s.unicode_len();
    let mut parts: Vec<&'a str> = Vec::new();
    let mut start: usize = 0;
    let mut i: usize = 0;
    proof {
        assert(s@.take(0).len() == 0);
        assert(s@.subrange(0, 0) =~= Seq::<char>::empty());
        assert(views(parts@).push(s@.subrange(0, 0)) =~= seq![Seq::<char>::empty()]);
    }
    while i < n
        invariant
            n == s@.len(),
            start <= i <= n,
            pieces(s@.take(i as int), sep) == views(parts@).push(
                s@.subrange(start as int, i as int),
            ),
        decreases n - i,
    {
        let c = s.get_char(i);
        proof {
            let next = s@.take(i + 1);
            assert(next.drop_last() == s@.take(i as int));
            assert(next.last() == c);
            if c == sep {
                assert(s@.subrange(i + 1, i + 1) == Seq::<char>::empty());
            } else {
                assert(s@.subrange(start as int, i as int).push(c) == s@.subrange(
                    start as int,
                    i + 1,
                ));
                assert(views(parts@).push(s@.subrange(start as int, i as int)).drop_last()
                    == views(parts@));
            }
        }
        if c == sep {
            let part = s.substring_char(start, i);
            proof {
                assert(views(parts@.push(part)) == views(parts@).push(part@));
            }
            parts.push(part);
            start = i + 1;
        }
        i += 1;
    }
    let part = s.substring_char(start, n);
    proof {
        assert(s@.take(n as int) == s@);
        assert(views(parts@.push(part)) == views(parts@).push(part@));
    }
    parts.push(part);
    parts
}

/// Whether `needle` stands in `s` at index `at`.
pub open spec fn occurs_at(s: Seq<char>, needle: Seq<char>, at: int) -> bool {
    0 <= at && at + needle.len() <= s.len() && s.subrange(at, at + needle.len()) == needle
}

/// Whether `needle` stands somewhere in `s`.
pub open spec fn contains_text(s: Seq<char>, needle: Seq<char>) -> bool {
    exists|at: int| occurs_at(s, needle, at)
}

/// Whether `s` begins with `prefix`.
pub open spec fn begins_with(s: Seq<char>, prefix: Seq<char>) -> bool {
    occurs_at(s, prefix, 0)
}

/// Whether `needle` stands in `s` at index `at`.
pub fn matches_at(s: &str, needle: &str, at: usize) -> (found: bool)
    ensures
        found == occurs_at(s@, needle@, at as int),
{
    let n = s.unicode_len();
    let m = needle.unicode_len();
    if at > n || m > n - at {
        return false;
    }
    let mut i: usize = 0;
    while i < m
        invariant
            n == s@.len(),
            m == needle@.len(),
            at + m <= n,
            i <= m,
            forall|k: int| 0 <= k < i ==> s@[at + k] == needle@[k],
        decreases m - i,
    {
        if s.get_char(at + i) != needle.get_char(i) {
            proof {
                assert(s@.subrange(at as int, at + m)[i as int] == s@[at + i]);
            }
            return false;
        }
        i += 1;
    }
    proof {
        assert(s@.subrange(at as int, at + m) =~= needle@);
    }
    true
}

/// Whether `a` and `b` hold the same characters.
pub fn same_text(a: &str, b: &str) -> (same: bool)
    ensures
        same == (a@ == b@),
{
    let same = a.unicode_len() == b.unicode_len() && matches_at(a, b, 0);
    proof {
        if a@.len() == b@.len() {
            assert(a@.subrange(0, a@.len() as int) == a@);
        }
    }
    same
}

/// Whether `s` begins with `prefix`.
pub fn starts_with(s: &str, prefix: &str) -> (found: bool)
    ensures
        found == begins_with(s@, prefix@),
{
    matches_at(s, prefix, 0)
}

/// Whether `needle` stands somewhere in `s`.
pub fn contains(s: &str, needle: &str) -> (found: bool)
    ensures
        found == contains_text(s@, needle@),
{
    let n = s.unicode_len();
    let mut at: usize = 0;
    while at < n
        invariant
            n == s@.len(),
            at <= n,
            forall|k: int| 0 <= k < at ==> !occurs_at(s@, needle@, k),
        decreases n - at,
    {
        if matches_at(s, needle, at) {
            return true;
        }
        at += 1;
    }
    matches_at(s, needle, n)
}

/// What is taken off the ends of a string.
#[derive(Clone, Copy, Debug, PartialEq, Eq, Structural)]
pub enum Trim {
    /// Characters with the Unicode property `White_Space`.
    Whitespace,
    /// The hyphen `-`.
    Hyphens,
    /// The slash `/`.
    Slashes,
}

/// Whether `c` has the Unicode property `White_Space`.
pub open spec fn is_whitespace(c: char) -> bool {
    let n = c as u32;
    ||| 0x09 <= n <= 0x0D
    ||| n == 0x20
    ||| n == 0x85
    ||| n == 0xA0
    ||| n == 0x1680
    ||| 0x2000 <= n <= 0x200A
    ||| n == 0x2028
    ||| n == 0x2029
    ||| n == 0x202F
    ||| n == 0x205F
    ||| n == 0x3000
}

/// Whether trimming `what` takes `c` off.
pub open spec fn strips(what: Trim, c: char) -> bool {
    match what {
        Trim::Whitespace => is_whitespace(c),
        Trim::Hyphens => c == '-',
        Trim::Slashes => c == '/',
    }
}

/// `s` without the longest run of stripped characters at its start.
pub open spec fn trim_front(s: Seq<char>, what: Trim) -> Seq<char>
    decreases s.len(),
{
    if s.len() > 0 && strips(what, s[0]) {
        trim_front(s.skip(1), what)
    } else {
        s
    }
}

/// `s` without the longest run of stripped characters at its end.
pub open spec fn trim_back(s: Seq<char>, what: Trim) -> Seq<char>
    decreases s.len(),
{
    if s.len() > 0 && strips(what, s.last()) {
        trim_back(s.drop_last(), what)
    } else {
        s
    }
}

/// `s` without the stripped characters at either end.
pub open spec fn trim_both(s: Seq<char>, what: Trim) -> Seq<char> {
    trim_back(trim_front(s, what), what)
}

/// Whether trimming `what` takes `c` off.
pub fn is_stripped(what: Trim, c: char) -> (yes: bool)
    ensures
        yes == strips(what, c),
{
    match what {
        Trim::Whitespace => {
            let n = c as u32;
            (0x09 <= n && n <= 0x0D) || n == 0x20 || n == 0x85 || n == 0xA0 || n == 0x1680 || (
            0x2000 <= n && n <= 0x200A) || n == 0x2028 || n == 0x2029 || n == 0x202F || n
                == 0x205F || n == 0x3000
        },
        Trim::Hyphens => c == '-',
        Trim::Slashes => c == '/',
    }
}

/// Takes the stripped characters off the start of `s`.
pub fn trim_start<'a>(s: &'a str, what: Trim) -> (rest: &'a str)
    ensures
        rest@ == trim_front(s@, what),
{
    let n = s.unicode_len();
    let mut i: usize = 0;
    proof {
        assert(s@.skip(0) == s@);
    }
    while i < n && is_stripped(what, s.get_char(i))
        invariant
            i <= n == s@.len(),
            trim_front(s@, what) == trim_front(s@.skip(i as int), what),
        decreases n - i,
    {
        proof {
            assert(s@.skip(i as int)[0] == s@[i as int]);
            assert(s@.skip(i as int).skip(1) == s@.skip(i + 1));
        }
        i += 1;
    }
    proof {
        if i < n {
            assert(s@.skip(i as int)[0] == s@[i as int]);
        }
        assert(s@.subrange(i as int, n as int) == s@.skip(i as int));
    }
    s.substring_char(i, n)
}

/// Takes the stripped characters off the end of `s`.
pub fn trim_end<'a>(s: &'a str, what: Trim) -> (rest: &'a str)
    ensures
        rest@ == trim_back(s@, what),
{
    let n = s.unicode_len();
    let mut j: usize = n;
    proof {
        assert(s@.take(n as int) == s@);
    }
    while j > 0 && is_stripped(what, s.get_char(j - 1))
        invariant
            j <= n == s@.len(),
            trim_back(s@, what) == trim_back(s@.take(j as int), what),
        decreases j,
    {
        proof {
            assert(s@.take(j as int).last() == s@[j - 1]);
            assert(s@.take(j as int).drop_last() == s@.take(j - 1));
        }
        j -= 1;
    }
    proof {
        if j > 0 {
            assert(s@.take(j as int).last() == s@[j - 1]);
        }
        assert(s@.subrange(0, j as int) == s@.take(j as int));
    }
    s.substring_char(0, j)
}

/// Takes the stripped characters off both ends of `s`.
pub fn trim<'a>(s: &'a str, what: Trim) -> (rest: &'a str)
    ensures
        rest@ == trim_both(s@, what),
{
    trim_end(trim_start(s, what), what)
}

/// The characters of an optional string.
pub open spec fn option_view(text: Option<String>) -> Option<Seq<char>> {
    match text {
        Some(text) => Some(text@),
        None => None,
    }
}

/// The characters of each string of a list.
pub open spec fn texts(list: Seq<String>) -> Seq<Seq<char>> {
    list.map_values(|text: String| text@)
}

/// Copies a list of strings.
pub fn copy_texts(list: &Vec<String>) -> (copy: Vec<String>)
    ensures
        texts(copy@) == texts(list@),
{
    let mut copy: Vec<String> = Vec::new();
    let mut i: usize = 0;
    while i < list.len()
        invariant
            i <= list.len(),
            copy@.len() == i,
            texts(copy@) == texts(list@.take(i as int)),
        decreases list.len() - i,
    {
        let text = list[i].clone();
        proof {
            let longer = copy@.push(text);
            assert forall|k: int| 0 <= k < longer.len() implies texts(longer)[k] == texts(
                list@.take(i + 1),
            )[k] by {
                if k < i {
                    assert(texts(copy@)[k] == texts(list@.take(i as int))[k]);
                }
            }
            assert(texts(longer) =~= texts(list@.take(i + 1)));
        }
        copy.push(text);
        i += 1;
    }
    proof {
        assert(list@.take(i as int) == list@);
    }
    copy
}

/// Copies an optional string.
pub fn copy_option(text: &Option<String>) -> (copy: Option<String>)
    ensures
        option_view(copy) == option_view(*text),
{
    match text {
        Some(text) => Some(text.clone()),
        None => None,
    }
}

} // verus!
