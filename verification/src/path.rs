//! Lexical resolution of link targets into canonical root-relative paths.
//!
//! A path is read as its `/`-separated segments. Empty segments and `.` leave
//! the position unchanged, `..` steps to the parent, and any other segment
//! steps into a child. Stepping above the content root is a failure.

use vstd::prelude::*;
use crate::error::Error;
use crate::text::{
    lemma_pieces_hold_no_separator, lemma_pieces_nonempty, lemma_pieces_of_joined,
    lemma_pieces_of_segment, pieces, split, views,
};

verus! {

/// A segment that names a file or a directory: not empty, not `.`, not `..`.
pub open spec fn is_name(segment: Seq<char>) -> bool {
    segment.len() > 0 && segment != seq!['.'] && segment != seq!['.', '.']
}

/// The position reached from `stack` (the directories below the root, outermost
/// first) by following one segment; `None` when that leaves the root.
pub open spec fn enter(stack: Seq<Seq<char>>, segment: Seq<char>) -> Option<Seq<Seq<char>>> {
    if segment.len() == 0 || segment == seq!['.'] {
        Some(stack)
    } else if segment == seq!['.', '.'] {
        if stack.len() == 0 {
            None
        } else {
            Some(stack.drop_last())
        }
    } else {
        Some(stack.push(segment))
    }
}

/// The position reached from `start` by following `segments` in order.
pub open spec fn walk(start: Option<Seq<Seq<char>>>, segments: Seq<Seq<char>>) -> Option<
    Seq<Seq<char>>,
>
    decreases segments.len(),
{
    if segments.len() == 0 {
        start
    } else {
        match walk(start, segments.drop_last()) {
            None => None,
            Some(stack) => enter(stack, segments.last()),
        }
    }
}

/// Every segment of `stack` written after a `/`.
pub open spec fn joined(stack: Seq<Seq<char>>) -> Seq<char>
    decreases stack.len(),
{
    if stack.len() == 0 {
        Seq::<char>::empty()
    } else {
        joined(stack.drop_last()) + seq!['/'] + stack.last()
    }
}

/// The root-relative path of a position: `/` for the root itself.
pub open spec fn rooted(stack: Seq<Seq<char>>) -> Seq<char> {
    if stack.len() == 0 {
        seq!['/']
    } else {
        joined(stack)
    }
}

/// Whether `link` starts at the content root rather than at the document.
pub open spec fn is_rooted(link: Seq<char>) -> bool {
    link.len() > 0 && link[0] == '/'
}

/// The directory that holds `document`, as a position below the root.
pub open spec fn directory_of(document: Seq<char>) -> Option<Seq<Seq<char>>> {
    walk(Some(Seq::<Seq<char>>::empty()), pieces(document, '/').drop_last())
}

/// The canonical root-relative path that `link` denotes when written in
/// `document`, or `None` when it leaves the content root.
pub open spec fn resolved(document: Seq<char>, link: Seq<char>) -> Option<Seq<char>> {
    let base = if is_rooted(link) {
        Some(Seq::<Seq<char>>::empty())
    } else {
        directory_of(document)
    };
    match walk(base, pieces(link, '/')) {
        None => None,
        Some(stack) => Some(rooted(stack)),
    }
}

/// A root-relative path in canonical form: one leading `/`, then names
/// separated by single `/`, or `/` alone.
pub open spec fn is_canonical(path: Seq<char>) -> bool {
    &&& is_rooted(path)
    &&& path.len() > 1 ==> forall|i: int|
        1 <= i < pieces(path, '/').len() ==> is_name(#[trigger] pieces(path, '/')[i])
}

/// Whether `segment` is `.`.
fn is_dot(segment: &str) -> (yes: bool)
    ensures
        yes == (segment@ == seq!['.']),
{
    let yes = segment.unicode_len() == 1 && segment.get_char(0) == '.';
    proof {
        if yes {
            assert(segment@ =~= seq!['.']);
        }
    }
    yes
}

/// Whether `segment` is `..`.
fn is_dot_dot(segment: &str) -> (yes: bool)
    ensures
        yes == (segment@ == seq!['.', '.']),
{
    let yes = segment.unicode_len() == 2 && segment.get_char(0) == '.' && segment.get_char(1)
        == '.';
    proof {
        if yes {
            assert(segment@ =~= seq!['.', '.']);
        }
    }
    yes
}

/// Follows the first `count` of `segments` from the position in `stack`.
/// Returns `false`, with `stack` in an unspecified state, when the walk
/// leaves the root.
fn follow<'a>(stack: &mut Vec<&'a str>, segments: &Vec<&'a str>, count: usize) -> (inside: bool)
    requires
        count <= segments.len(),
    ensures
        match walk(Some(views(old(stack)@)), views(segments@).take(count as int)) {
            None => !inside,
            Some(position) => inside && views(final(stack)@) == position,
        },
{
    let mut i: usize = 0;
    proof {
        assert(views(segments@).take(0).len() == 0);
    }
    while i < count
        invariant
            i <= count <= segments.len(),
            walk(Some(views(old(stack)@)), views(segments@).take(i as int)) == Some(
                views(stack@),
            ),
        decreases count - i,
    {
        let segment = segments[i];
        proof {
            let next = views(segments@).take(i + 1);
            assert(next.drop_last() == views(segments@).take(i as int));
            assert(next.last() == segment@);
            if i + 1 < count {
            } else {
                assert(next == views(segments@).take(count as int));
            }
        }
        if segment.unicode_len() == 0 || is_dot(segment) {
        } else if is_dot_dot(segment) {
            if stack.len() == 0 {
                proof {
                    let all = views(segments@).take(count as int);
                    assert(all.take(i + 1) == views(segments@).take(i + 1));
                    assert(walk(Some(views(old(stack)@)), all.take(i + 1)) is None);
                    lemma_walk_stays_lost(Some(views(old(stack)@)), all, i + 1);
                }
                return false;
            }
            proof {
                assert(views(stack@.drop_last()) == views(stack@).drop_last());
            }
            stack.pop();
        } else {
            proof {
                assert(views(stack@.push(segment)) == views(stack@).push(segment@));
            }
            stack.push(segment);
        }
        i += 1;
    }
    true
}

/// Once a walk has left the root, following further segments cannot return.
pub proof fn lemma_walk_stays_lost(
    start: Option<Seq<Seq<char>>>,
    segments: Seq<Seq<char>>,
    lost_at: int,
)
    requires
        0 <= lost_at <= segments.len(),
        walk(start, segments.take(lost_at)) is None,
    ensures
        walk(start, segments) is None,
    decreases segments.len() - lost_at,
{
    if lost_at < segments.len() {
        assert(segments.take(lost_at + 1).drop_last() == segments.take(lost_at));
        lemma_walk_stays_lost(start, segments, lost_at + 1);
    } else {
        assert(segments.take(lost_at) == segments);
    }
}

/// A walk that starts outside the root stays outside.
pub proof fn lemma_walk_from_nowhere(segments: Seq<Seq<char>>)
    ensures
        walk(None, segments) is None,
    decreases segments.len(),
{
    if segments.len() > 0 {
        lemma_walk_from_nowhere(segments.drop_last());
    }
}

/// Writes a position as a root-relative path.
fn to_rooted(stack: &Vec<&str>) -> (path: String)
    ensures
        path@ == rooted(views(stack@)),
{
    proof {
        reveal_strlit("/");
    }
    if stack.len() == 0 {
        let root = String::from_str("/");
        proof {
            assert(root@ =~= seq!['/']);
        }
        return root;
    }
    let mut path = String::new();
    let mut i: usize = 0;
    proof {
        assert(views(stack@).take(0).len() == 0);
    }
    while i < stack.len()
        invariant
            i <= stack.len(),
            "/"@ == seq!['/'],
            path@ == joined(views(stack@).take(i as int)),
        decreases stack.len() - i,
    {
        proof {
            let next = views(stack@).take(i + 1);
            assert(next.drop_last() == views(stack@).take(i as int));
            assert(next.last() == stack@[i as int]@);
        }
        path.append("/");
        path.append(stack[i]);
        i += 1;
    }
    proof {
        assert(views(stack@).take(stack.len() as int) == views(stack@));
    }
    path
}

/// Resolves `link`, written in the document at the root-relative path
/// `document`, into a canonical root-relative path.
///
/// A link that starts with `/` starts at the content root; any other link
/// starts at the directory that holds the document. The result starts with a
/// single `/` and holds no empty, `.` or `..` segment. A link whose `..`
/// segments climb above the content root is an error that names the document
/// and the link.
pub fn resolve_link(document: &str, link: &str) -> (result: Result<String, Error>)
    ensures
        match resolved(document@, link@) {
            Some(path) => result matches Ok(p) && p@ == path && is_canonical(path),
            None => result matches Err(Error::InvalidLinkTarget { document: d, link: l })
                && d@ == document@ && l@ == link@,
        },
{
    proof {
        lemma_resolved_is_canonical(document@, link@);
    }
    let link_segments = split(link, '/');
    let mut stack: Vec<&str> = Vec::new();
    let mut inside = true;
    proof {
        assert(views(stack@) == Seq::<Seq<char>>::empty());
    }
    if !(link.unicode_len() > 0 && link.get_char(0) == '/') {
        let document_segments = split(document, '/');
        proof {
            lemma_pieces_nonempty(document@, '/');
            assert(views(document_segments@).take(document_segments.len() - 1) == pieces(
                document@,
                '/',
            ).drop_last());
        }
        inside = follow(&mut stack, &document_segments, document_segments.len() - 1);
    }
    proof {
        lemma_walk_from_nowhere(pieces(link@, '/'));
    }
    if inside {
        proof {
            assert(views(link_segments@).take(link_segments.len() as int) == views(
                link_segments@,
            ));
        }
        inside = follow(&mut stack, &link_segments, link_segments.len());
    }
    if inside {
        Ok(to_rooted(&stack))
    } else {
        Err(
            Error::InvalidLinkTarget {
                document: String::from_str(document),
                link: String::from_str(link),
            },
        )
    }
}

/// The first piece of a string that starts with the separator is empty, and
/// at least one more piece follows it.
pub proof fn lemma_pieces_of_rooted(path: Seq<char>)
    requires
        is_rooted(path),
    ensures
        pieces(path, '/').len() >= 2,
        pieces(path, '/')[0].len() == 0,
    decreases path.len(),
{
    let before = path.drop_last();
    if before.len() == 0 {
        assert(pieces(before, '/') == seq![Seq::<char>::empty()]);
    } else {
        lemma_pieces_of_rooted(before);
    }
}

/// Joining the pieces of a string gives the string back behind one `/`.
pub proof fn lemma_joined_pieces(path: Seq<char>)
    ensures
        joined(pieces(path, '/')) == seq!['/'] + path,
    decreases path.len(),
{
    if path.len() == 0 {
        let only = seq![Seq::<char>::empty()];
        assert(only.drop_last().len() == 0);
        assert(joined(only) == joined(only.drop_last()) + seq!['/'] + only.last());
        assert(joined(only) =~= seq!['/'] + path);
    } else {
        let before = path.drop_last();
        let parts = pieces(before, '/');
        lemma_joined_pieces(before);
        lemma_pieces_nonempty(before, '/');
        if path.last() == '/' {
            let all = parts.push(Seq::<char>::empty());
            assert(all.drop_last() == parts);
            assert(joined(all) =~= seq!['/'] + path);
        } else {
            let all = parts.drop_last().push(parts.last().push(path.last()));
            assert(all.drop_last() == parts.drop_last());
            assert(joined(all) =~= joined(parts) + seq![path.last()]);
            assert(joined(all) =~= seq!['/'] + path);
        }
    }
}

/// Behind an empty first segment, joining writes one `/` and then the rest.
pub proof fn lemma_joined_behind_empty(segments: Seq<Seq<char>>)
    requires
        segments.len() >= 1,
        segments[0].len() == 0,
    ensures
        joined(segments) == seq!['/'] + joined(segments.subrange(1, segments.len() as int)),
    decreases segments.len(),
{
    let rest = segments.subrange(1, segments.len() as int);
    if segments.len() == 1 {
        assert(segments.drop_last().len() == 0);
        assert(rest.len() == 0);
        assert(joined(segments) == joined(segments.drop_last()) + seq!['/'] + segments.last());
        assert(joined(segments) =~= seq!['/'] + joined(rest));
    } else {
        lemma_joined_behind_empty(segments.drop_last());
        assert(rest.drop_last() =~= segments.drop_last().subrange(1, segments.len() - 1));
        assert(rest.last() == segments.last());
        assert(joined(rest) == joined(rest.drop_last()) + seq!['/'] + rest.last());
        assert(joined(segments) =~= seq!['/'] + joined(rest));
    }
}

/// From the root, an empty segment followed by names leads to exactly those names.
pub proof fn lemma_walk_names(segments: Seq<Seq<char>>)
    requires
        segments.len() >= 1,
        segments[0].len() == 0,
        forall|i: int| 1 <= i < segments.len() ==> is_name(#[trigger] segments[i]),
    ensures
        walk(Some(Seq::<Seq<char>>::empty()), segments) == Some(
            segments.subrange(1, segments.len() as int),
        ),
    decreases segments.len(),
{
    let root = Some(Seq::<Seq<char>>::empty());
    let rest = segments.subrange(1, segments.len() as int);
    if segments.len() == 1 {
        assert(segments.drop_last().len() == 0);
        assert(walk(root, segments.drop_last()) == root);
        assert(rest =~= Seq::<Seq<char>>::empty());
    } else {
        lemma_walk_names(segments.drop_last());
        let before = segments.drop_last().subrange(1, segments.len() - 1);
        assert(is_name(segments[segments.len() - 1]));
        assert(before.push(segments.last()) =~= rest);
    }
}

/// A path that starts with `/` is its pieces behind the first, each written
/// after a `/`.
pub proof fn lemma_rooted_is_joined(path: Seq<char>)
    requires
        is_rooted(path),
    ensures
        pieces(path, '/').len() >= 2,
        path == joined(pieces(path, '/').subrange(1, pieces(path, '/').len() as int)),
{
    let segments = pieces(path, '/');
    let rest = segments.subrange(1, segments.len() as int);
    lemma_pieces_of_rooted(path);
    lemma_joined_pieces(path);
    lemma_joined_behind_empty(segments);
    let with_path = seq!['/'] + path;
    let with_rest = seq!['/'] + joined(rest);
    assert(with_path == with_rest);
    assert(with_path.skip(1) =~= path);
    assert(with_rest.skip(1) =~= joined(rest));
}

/// Resolution leaves canonical paths alone: a root-relative path made of names
/// resolves to itself, whichever document it is written in.
pub proof fn lemma_resolve_canonical(document: Seq<char>, path: Seq<char>)
    requires
        is_canonical(path),
    ensures
        resolved(document, path) == Some(path),
{
    let segments = pieces(path, '/');
    let root = Some(Seq::<Seq<char>>::empty());
    lemma_pieces_of_rooted(path);
    if path.len() == 1 {
        assert(path =~= seq!['/']);
        assert(path.drop_last() =~= Seq::<char>::empty());
        assert(pieces(path.drop_last(), '/') =~= seq![Seq::<char>::empty()]);
        assert(segments =~= seq![Seq::<char>::empty(), Seq::<char>::empty()]);
        assert(segments.drop_last() =~= seq![Seq::<char>::empty()]);
        assert(segments.drop_last().drop_last().len() == 0);
        assert(walk(root, segments.drop_last().drop_last()) == root);
        assert(walk(root, segments.drop_last()) == root);
        assert(walk(root, segments) == root);
    } else {
        let rest = segments.subrange(1, segments.len() as int);
        lemma_walk_names(segments);
        lemma_rooted_is_joined(path);
        assert(rest.len() >= 1);
    }
}

/// Whether `stack` is made of names, none of which holds a `/`.
pub open spec fn is_position(stack: Seq<Seq<char>>) -> bool {
    forall|k: int| 0 <= k < stack.len() ==> is_name(#[trigger] stack[k]) && !stack[k].contains('/')
}

/// A walk that starts at a position leads to a position.
pub proof fn lemma_walk_leads_to_position(start: Seq<Seq<char>>, segments: Seq<Seq<char>>)
    requires
        is_position(start),
        forall|k: int| 0 <= k < segments.len() ==> !(#[trigger] segments[k]).contains('/'),
    ensures
        walk(Some(start), segments) matches Some(stack) ==> is_position(stack),
    decreases segments.len(),
{
    if segments.len() > 0 {
        let before = segments.drop_last();
        assert forall|k: int| 0 <= k < before.len() implies !(#[trigger] before[k]).contains(
            '/',
        ) by {
            assert(before[k] == segments[k]);
        }
        lemma_walk_leads_to_position(start, before);
        if let Some(stack) = walk(Some(start), before) {
            let last = segments.last();
            assert(last == segments[segments.len() - 1]);
            if let Some(next) = enter(stack, last) {
                assert forall|k: int| 0 <= k < next.len() implies is_name(#[trigger] next[k])
                    && !next[k].contains('/') by {
                    if k < stack.len() {
                        assert(next[k] == stack[k]);
                    }
                }
            }
        }
    }
}

/// The path of a position below the root starts with `/`, and its pieces are
/// an empty piece and then the names of the position.
pub proof fn lemma_pieces_of_position(stack: Seq<Seq<char>>)
    requires
        is_position(stack),
    ensures
        pieces(joined(stack), '/') == seq![Seq::<char>::empty()] + stack,
        stack.len() > 0 ==> is_rooted(joined(stack)),
    decreases stack.len(),
{
    let none = Seq::<char>::empty();
    if stack.len() == 0 {
        assert(pieces(joined(stack), '/') =~= seq![none] + stack);
    } else {
        let before = stack.drop_last();
        let last = stack.last();
        assert(last == stack[stack.len() - 1]);
        assert forall|k: int| 0 <= k < before.len() implies is_name(#[trigger] before[k])
            && !before[k].contains('/') by {
            assert(before[k] == stack[k]);
        }
        lemma_pieces_of_position(before);
        lemma_pieces_of_joined(joined(before), last);
        lemma_pieces_of_segment(last);
        assert(pieces(joined(stack), '/') =~= seq![none] + stack);
        if before.len() == 0 {
            assert(joined(stack)[0] == '/');
        } else {
            assert(joined(stack)[0] == joined(before)[0]);
        }
    }
}

/// What resolution gives is canonical: it starts with a single `/` and holds
/// no empty segment, no `.` and no `..`.
pub proof fn lemma_resolved_is_canonical(document: Seq<char>, link: Seq<char>)
    ensures
        resolved(document, link) matches Some(path) ==> is_canonical(path),
{
    let root = Seq::<Seq<char>>::empty();
    let base = pieces(document, '/').drop_last();
    let steps = pieces(link, '/');
    assert forall|k: int| 0 <= k < base.len() implies !(#[trigger] base[k]).contains('/') by {
        lemma_pieces_hold_no_separator(document, k);
    }
    assert forall|k: int| 0 <= k < steps.len() implies !(#[trigger] steps[k]).contains('/') by {
        lemma_pieces_hold_no_separator(link, k);
    }
    lemma_walk_leads_to_position(root, base);
    let start = if is_rooted(link) {
        Some(root)
    } else {
        directory_of(document)
    };
    if let Some(from) = start {
        lemma_walk_leads_to_position(from, steps);
        if let Some(stack) = walk(start, steps) {
            lemma_pieces_of_position(stack);
            let path = rooted(stack);
            if stack.len() > 0 {
                assert forall|i: int| 1 <= i < pieces(path, '/').len() implies is_name(
                    #[trigger] pieces(path, '/')[i],
                ) by {
                    assert(pieces(path, '/')[i] == stack[i - 1]);
                }
            }
        }
    } else {
        lemma_walk_from_nowhere(steps);
    }
}

/// Resolution is idempotent: what it gives resolves to itself.
pub proof fn lemma_resolve_is_idempotent(document: Seq<char>, link: Seq<char>)
    ensures
        resolved(document, link) matches Some(path) ==> resolved(document, path) == Some(path),
{
    lemma_resolved_is_canonical(document, link);
    if let Some(path) = resolved(document, link) {
        lemma_resolve_canonical(document, path);
    }
}

/// The last segment of `path`: its file name.
pub open spec fn file_name(path: Seq<char>) -> Seq<char> {
    pieces(path, '/').last()
}

/// The index of the `.` that starts the extension of the file name `name`: its
/// last `.`, unless that is its first character. Zero where there is none.
pub open spec fn extension_dot(name: Seq<char>) -> int
    decreases name.len(),
{
    if name.len() <= 1 {
        0
    } else if name.last() == '.' {
        name.len() - 1
    } else {
        extension_dot(name.drop_last())
    }
}

/// The file name `name` without its extension.
pub open spec fn stem(name: Seq<char>) -> Seq<char> {
    if extension_dot(name) == 0 {
        name
    } else {
        name.take(extension_dot(name))
    }
}

/// The extension of the file name `name`, without its dot.
pub open spec fn extension(name: Seq<char>) -> Option<Seq<char>> {
    if extension_dot(name) == 0 {
        None
    } else {
        Some(name.skip(extension_dot(name) + 1))
    }
}

/// The extension dot, where a file name has one, is a `.` of the name.
pub proof fn lemma_extension_dot_bounds(name: Seq<char>)
    ensures
        0 <= extension_dot(name) < name.len() || (extension_dot(name) == 0 && name.len() == 0),
        extension_dot(name) > 0 ==> name[extension_dot(name)] == '.',
    decreases name.len(),
{
    if name.len() > 1 && name.last() != '.' {
        lemma_extension_dot_bounds(name.drop_last());
    }
}

/// The file name of `path`.
pub fn file_name_of<'a>(path: &'a str) -> (name: &'a str)
    ensures
        name@ == file_name(path@),
{
    let parts = split(path, '/');
    proof {
        lemma_pieces_nonempty(path@, '/');
    }
    parts[parts.len() - 1]
}

/// Finds the `.` that starts the extension of `name`.
pub fn find_extension_dot(name: &str) -> (dot: usize)
    ensures
        dot == extension_dot(name@),
        dot < name@.len() || name@.len() == 0,
{
    let n = name.unicode_len();
    let mut i: usize = n;
    proof {
        assert(name@.take(n as int) == name@);
        lemma_extension_dot_bounds(name@);
    }
    while i > 1
        invariant
            i <= n == name@.len(),
            extension_dot(name@) == extension_dot(name@.take(i as int)),
        decreases i,
    {
        if name.get_char(i - 1) == '.' {
            return i - 1;
        }
        proof {
            assert(name@.take(i as int).drop_last() == name@.take(i - 1));
        }
        i -= 1;
    }
    0
}

/// The file name `name` without its extension.
pub fn file_stem<'a>(name: &'a str) -> (short: &'a str)
    ensures
        short@ == stem(name@),
{
    let dot = find_extension_dot(name);
    if dot == 0 {
        name
    } else {
        let short = name.substring_char(0, dot);
        proof {
            assert(name@.subrange(0, dot as int) == name@.take(dot as int));
        }
        short
    }
}

} // verus!
