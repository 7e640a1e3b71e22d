//! Rewriting of link and image targets into stable, extension-free,
//! root-relative URLs.

use vstd::prelude::*;
use crate::blog_name::{dated_name, parse_blog_file_name};
use crate::error::Error;
use crate::path::{
    directory_of, enter, extension, extension_dot, file_name, file_name_of, file_stem,
    find_extension_dot, is_canonical, is_name, joined, lemma_resolve_canonical,
    lemma_rooted_is_joined, resolve_link, resolved, rooted, stem, walk,
};
use crate::text::{
    begins_with, contains, contains_text, lemma_pieces_hold_no_separator, lemma_pieces_nonempty,
    lemma_pieces_of_joined, lemma_pieces_of_segment, occurs_at, pieces, same_text, split,
    starts_with, views,
};

verus! {

/// What a target belongs to: a plain link, or an image reference.
#[derive(Clone, Copy, Debug, PartialEq, Eq, Structural)]
pub enum TargetKind {
    Link,
    Image,
}

/// A target that names a resource outside the site: it has a URI scheme
/// followed by `://`, or is a `mailto:` address.
pub open spec fn is_external(target: Seq<char>) -> bool {
    contains_text(target, seq![':', '/', '/']) || begins_with(
        target,
        seq!['m', 'a', 'i', 'l', 't', 'o', ':'],
    )
}

/// A target that stays within the document it is written in: the empty
/// target, a fragment, or a query string.
pub open spec fn is_same_document(target: Seq<char>) -> bool {
    target.len() == 0 || target[0] == '#' || target[0] == '?'
}

/// Whether the file name of `path` has the extension `md`.
pub open spec fn has_markdown_extension(path: Seq<char>) -> bool {
    extension(file_name(path)) == Some(seq!['m', 'd'])
}

/// `path` without its last three characters: without `.md`, where it has the
/// Markdown extension.
pub open spec fn without_extension(path: Seq<char>) -> Seq<char> {
    path.take(path.len() - 3)
}

/// The name of the directory, directly below the content root, that holds the
/// blog entries.
pub open spec fn blog_directory() -> Seq<char> {
    seq!['b', 'l', 'o', 'g']
}

/// The slug of the blog entry that the canonical path `path` names: `path`
/// must be a Markdown file directly inside the blog directory whose name,
/// without the extension, is a blog entry name.
pub open spec fn blog_slug(path: Seq<char>) -> Option<Seq<char>> {
    let segments = pieces(path, '/');
    if segments.len() == 3 && segments[1] == blog_directory() && has_markdown_extension(path) {
        match dated_name(stem(segments[2])) {
            Some((_, slug)) => Some(slug),
            None => None,
        }
    } else {
        None
    }
}

/// The URL under which the blog entry with the slug `slug` is served.
pub open spec fn blog_url(slug: Seq<char>) -> Seq<char> {
    seq!['/', 'b', 'l', 'o', 'g', '/'] + slug
}

/// The URL that stands for the resolved path `path`. A plain link to the file
/// of a blog entry leads to the entry's slug; whatever then still ends in the
/// Markdown extension loses it.
pub open spec fn served(path: Seq<char>, kind: TargetKind) -> Seq<char> {
    let retargeted = match blog_slug(path) {
        Some(slug) if kind == TargetKind::Link => blog_url(slug),
        _ => path,
    };
    if has_markdown_extension(retargeted) {
        without_extension(retargeted)
    } else {
        retargeted
    }
}

/// The target that replaces `target`, written in `document`: external and
/// same-document targets stay as they are, any other target is resolved and
/// served. `None` when the target leaves the content root.
pub open spec fn rewritten(document: Seq<char>, target: Seq<char>, kind: TargetKind) -> Option<
    Seq<char>,
> {
    if is_external(target) || is_same_document(target) {
        Some(target)
    } else {
        match resolved(document, target) {
            None => None,
            Some(path) => Some(served(path, kind)),
        }
    }
}

/// The file name of a path is the end of the path.
pub proof fn lemma_file_name_is_suffix(path: Seq<char>)
    ensures
        file_name(path).len() <= path.len(),
        file_name(path) == path.skip(path.len() - file_name(path).len()),
    decreases path.len(),
{
    if path.len() == 0 {
        assert(file_name(path) =~= path.skip(0));
    } else {
        let before = path.drop_last();
        lemma_file_name_is_suffix(before);
        lemma_pieces_nonempty(before, '/');
        if path.last() == '/' {
            assert(file_name(path) =~= path.skip(path.len() as int));
        } else {
            assert(file_name(path) == file_name(before).push(path.last()));
            assert(file_name(path) =~= path.skip(path.len() - file_name(path).len()));
        }
    }
}

/// Whether `target` names a resource outside the site.
pub fn is_external_target(target: &str) -> (external: bool)
    ensures
        external == is_external(target@),
{
    proof {
        reveal_strlit("://");
        reveal_strlit("mailto:");
        assert("://"@ =~= seq![':', '/', '/']);
        assert("mailto:"@ =~= seq!['m', 'a', 'i', 'l', 't', 'o', ':']);
    }
    contains(target, "://") || starts_with(target, "mailto:")
}

/// Whether `target` stays within the document it is written in.
pub fn is_same_document_target(target: &str) -> (same: bool)
    ensures
        same == is_same_document(target@),
{
    if target.unicode_len() == 0 {
        true
    } else {
        let first = target.get_char(0);
        first == '#' || first == '?'
    }
}

/// Whether the file name of `path` has the extension `md`.
pub fn has_md_extension(path: &str) -> (yes: bool)
    ensures
        yes == has_markdown_extension(path@),
        yes ==> path@.len() >= 4,
{
    let name = file_name_of(path);
    let dot = find_extension_dot(name);
    if dot == 0 {
        return false;
    }
    let n = name.unicode_len();
    let yes = n - dot == 3 && name.get_char(dot + 1) == 'm' && name.get_char(dot + 2) == 'd';
    proof {
        lemma_file_name_is_suffix(path@);
        let rest = name@.skip(dot + 1);
        if yes {
            assert(rest =~= seq!['m', 'd']);
        } else if rest == seq!['m', 'd'] {
            assert(rest.len() == 2);
            assert(rest[0] == 'm' && rest[1] == 'd');
        }
    }
    yes
}

/// Turns a canonical root-relative path into the URL that stands for it.
pub fn serve(path: &str, kind: TargetKind) -> (url: String)
    ensures
        url@ == served(path@, kind),
{
    let mut retargeted = String::from_str(path);
    if kind == TargetKind::Link && has_md_extension(path) {
        let segments = split(path, '/');
        proof {
            reveal_strlit("blog");
            assert("blog"@ =~= blog_directory());
            if segments.len() == 3 {
                assert(views(segments@)[1] == segments@[1]@);
                assert(views(segments@)[2] == segments@[2]@);
            }
        }
        if segments.len() == 3 && same_text(segments[1], "blog") {
            match parse_blog_file_name(file_stem(segments[2])) {
                Ok((_, slug)) => {
                    proof {
                        reveal_strlit("/blog/");
                        assert("/blog/"@ =~= seq!['/', 'b', 'l', 'o', 'g', '/']);
                    }
                    retargeted = String::from_str("/blog/");
                    retargeted.append(slug.as_str());
                },
                Err(_) => {},
            }
        }
    }
    if has_md_extension(retargeted.as_str()) {
        let n = retargeted.as_str().unicode_len();
        let short = retargeted.as_str().substring_char(0, n - 3);
        proof {
            assert(retargeted@.subrange(0, n - 3) == retargeted@.take(n - 3));
        }
        String::from_str(short)
    } else {
        retargeted
    }
}

/// Rewrites one link or image target of the document at the root-relative
/// path `document`.
///
/// External targets (with `://`, or `mailto:` addresses) and same-document
/// targets (empty, `#fragment`, `?query`) are returned unchanged. Any other
/// target is resolved against the document and turned into the URL under which
/// the site serves it. A target that resolves outside the content root is an
/// error that names the document and the target.
pub fn rewrite_target(document: &str, target: &str, kind: TargetKind) -> (result: Result<
    String,
    Error,
>)
    ensures
        match rewritten(document@, target@, kind) {
            Some(url) => result matches Ok(u) && u@ == url,
            None => result matches Err(Error::InvalidLinkTarget { document: d, link: l })
                && d@ == document@ && l@ == target@,
        },
{
    if is_external_target(target) || is_same_document_target(target) {
        return Ok(String::from_str(target));
    }
    match resolve_link(document, target) {
        Ok(path) => Ok(serve(path.as_str(), kind)),
        Err(error) => Err(error),
    }
}

/// The Markdown extension with its dot.
pub open spec fn dot_md() -> Seq<char> {
    seq!['.', 'm', 'd']
}

/// A file name with the Markdown extension added has that extension, and the
/// name as its stem.
pub proof fn lemma_markdown_file(name: Seq<char>)
    requires
        name.len() >= 1,
    ensures
        extension(name + dot_md()) == Some(seq!['m', 'd']),
        stem(name + dot_md()) == name,
{
    let file = name + dot_md();
    let first = file.drop_last();
    let second = first.drop_last();
    assert(file.last() == 'd');
    assert(first.last() == 'm');
    assert(second.last() == '.');
    assert(extension_dot(second) == name.len());
    assert(extension_dot(first) == name.len());
    assert(extension_dot(file) == name.len());
    assert(file.skip(name.len() as int + 1) =~= seq!['m', 'd']);
    assert(file.take(name.len() as int) =~= name);
}

/// Below the root, slashes of a path made of names stand alone: none is
/// followed by another, and none ends the path.
pub proof fn lemma_joined_names(stack: Seq<Seq<char>>, at: int)
    requires
        forall|k: int| 0 <= k < stack.len() ==> is_name(#[trigger] stack[k]) && !stack[k].contains('/'),
        0 <= at < joined(stack).len(),
        joined(stack)[at] == '/',
    ensures
        at + 1 < joined(stack).len(),
        joined(stack)[at + 1] != '/',
    decreases stack.len(),
{
    if stack.len() > 0 {
        let before = joined(stack.drop_last());
        let last = stack.last();
        assert(is_name(stack[stack.len() - 1]));
        assert(!last.contains('/'));
        assert(last[0] != '/');
        if at < before.len() {
            assert forall|k: int| 0 <= k < stack.drop_last().len() implies is_name(
                #[trigger] stack.drop_last()[k],
            ) && !stack.drop_last()[k].contains('/') by {
                assert(stack.drop_last()[k] == stack[k]);
            }
            lemma_joined_names(stack.drop_last(), at);
        } else if at > before.len() {
            assert(last[at - before.len() - 1] == '/');
        }
    }
}

/// A canonical path is no external target and no same-document target.
pub proof fn lemma_canonical_is_internal(path: Seq<char>)
    requires
        is_canonical(path),
    ensures
        !is_external(path),
        !is_same_document(path),
{
    let scheme = seq![':', '/', '/'];
    let mailto = seq!['m', 'a', 'i', 'l', 't', 'o', ':'];
    if begins_with(path, mailto) {
        assert(path.subrange(0, 7)[0] == path[0]);
    }
    if contains_text(path, scheme) {
        let at = choose|at: int| occurs_at(path, scheme, at);
        assert(path.subrange(at, at + 3)[1] == path[at + 1]);
        assert(path.subrange(at, at + 3)[2] == path[at + 2]);
        let segments = pieces(path, '/');
        let rest = segments.subrange(1, segments.len() as int);
        lemma_rooted_is_joined(path);
        assert forall|k: int| 0 <= k < rest.len() implies is_name(#[trigger] rest[k])
            && !rest[k].contains('/') by {
            assert(rest[k] == segments[k + 1]);
            lemma_pieces_hold_no_separator(path, k + 1);
        }
        lemma_joined_names(rest, at + 1);
    }
}

/// The path `/blog/` plus a file name has three pieces: none, the blog
/// directory, and the file name.
pub proof fn lemma_pieces_of_blog_path(file: Seq<char>)
    requires
        !file.contains('/'),
    ensures
        pieces(blog_url(file), '/') == seq![Seq::<char>::empty(), blog_directory(), file],
        file_name(blog_url(file)) == file,
{
    let none = Seq::<char>::empty();
    assert(blog_url(file) =~= (none + seq!['/'] + blog_directory()) + seq!['/'] + file);
    lemma_pieces_of_joined(none + seq!['/'] + blog_directory(), file);
    lemma_pieces_of_joined(none, blog_directory());
    assert(!blog_directory().contains('/')) by {
        if blog_directory().contains('/') {
            let at = choose|at: int| 0 <= at < blog_directory().len() && blog_directory()[at] == '/';
            assert(at == 0 || at == 1 || at == 2 || at == 3);
        }
    }
    lemma_pieces_of_segment(blog_directory());
    lemma_pieces_of_segment(file);
    lemma_pieces_of_segment(none);
    assert(pieces(blog_url(file), '/') =~= seq![none, blog_directory(), file]);
}

/// The file of a blog entry, in the blog directory, is served under the
/// entry's slug.
pub proof fn lemma_blog_entry_is_served_by_slug(name: Seq<char>)
    requires
        !name.contains('/'),
        dated_name(name) is Some,
        extension(dated_name(name).unwrap().1) != Some(seq!['m', 'd']),
    ensures
        served(blog_url(name + dot_md()), TargetKind::Link) == blog_url(dated_name(name).unwrap().1),
{
    let file = name + dot_md();
    let slug = dated_name(name).unwrap().1;
    assert(!file.contains('/')) by {
        if file.contains('/') {
            let at = choose|at: int| 0 <= at < file.len() && file[at] == '/';
            if at < name.len() {
                assert(name[at] == '/');
            }
        }
    }
    assert(!slug.contains('/')) by {
        if slug.contains('/') {
            let at = choose|at: int| 0 <= at < slug.len() && slug[at] == '/';
            assert(name[at + 11] == '/');
        }
    }
    lemma_pieces_of_blog_path(file);
    lemma_pieces_of_blog_path(slug);
    lemma_markdown_file(name);
    assert(blog_slug(blog_url(file)) == Some(slug));
}

/// A plain link to the file of a blog entry, written with its path from the
/// content root, leads to `/blog/` and the entry's slug, whichever document
/// it is written in: the date and the extension are both dropped.
pub proof fn lemma_blog_cross_link_from_root(document: Seq<char>, name: Seq<char>)
    requires
        !name.contains('/'),
        dated_name(name) is Some,
        extension(dated_name(name).unwrap().1) != Some(seq!['m', 'd']),
    ensures
        rewritten(document, blog_url(name + dot_md()), TargetKind::Link) == Some(
            blog_url(dated_name(name).unwrap().1),
        ),
{
    let file = name + dot_md();
    let path = blog_url(file);
    assert(!file.contains('/')) by {
        if file.contains('/') {
            let at = choose|at: int| 0 <= at < file.len() && file[at] == '/';
            if at < name.len() {
                assert(name[at] == '/');
            }
        }
    }
    lemma_pieces_of_blog_path(file);
    assert(is_canonical(path)) by {
        assert(path[0] == '/');
        assert(is_name(blog_directory())) by {
            assert(blog_directory().len() == 4);
        }
        assert(is_name(file)) by {
            assert(file.len() >= 3);
        }
    }
    lemma_canonical_is_internal(path);
    lemma_resolve_canonical(document, path);
    lemma_blog_entry_is_served_by_slug(name);
}

/// A plain link to the file of a blog entry, written as the bare file name in
/// a document that lies directly in the blog directory, leads to `/blog/` and
/// the entry's slug.
pub proof fn lemma_blog_cross_link(document_name: Seq<char>, name: Seq<char>)
    requires
        !document_name.contains('/'),
        !name.contains('/'),
        dated_name(name) is Some,
        extension(dated_name(name).unwrap().1) != Some(seq!['m', 'd']),
    ensures
        rewritten(
            blog_directory() + seq!['/'] + document_name,
            name + dot_md(),
            TargetKind::Link,
        ) == Some(blog_url(dated_name(name).unwrap().1)),
{
    let document = blog_directory() + seq!['/'] + document_name;
    let file = name + dot_md();
    let root = Some(Seq::<Seq<char>>::empty());
    assert(name.len() >= 12);
    assert(file[0] == name[0]);
    assert(!file.contains('/')) by {
        if file.contains('/') {
            let at = choose|at: int| 0 <= at < file.len() && file[at] == '/';
            if at < name.len() {
                assert(name[at] == '/');
            }
        }
    }
    assert(!blog_directory().contains('/')) by {
        if blog_directory().contains('/') {
            let at = choose|at: int| 0 <= at < blog_directory().len() && blog_directory()[at] == '/';
            assert(at == 0 || at == 1 || at == 2 || at == 3);
        }
    }
    // The link is neither external nor within the document.
    let scheme = seq![':', '/', '/'];
    if contains_text(file, scheme) {
        let at = choose|at: int| occurs_at(file, scheme, at);
        assert(file.subrange(at, at + 3)[1] == file[at + 1]);
    }
    if begins_with(file, seq!['m', 'a', 'i', 'l', 't', 'o', ':']) {
        assert(file.subrange(0, 7)[0] == file[0]);
        assert(name.subrange(0, 4)[0] == name[0]);
    }
    assert(name.subrange(0, 4)[0] == name[0]);
    assert(!is_external(file));
    assert(!is_same_document(file));
    // The document lies in the blog directory.
    lemma_pieces_of_joined(blog_directory(), document_name);
    lemma_pieces_of_segment(blog_directory());
    lemma_pieces_of_segment(document_name);
    let base = pieces(document, '/').drop_last();
    assert(base =~= seq![blog_directory()]);
    assert(base.drop_last().len() == 0);
    assert(walk(root, base.drop_last()) == root);
    assert(directory_of(document) == Some(seq![blog_directory()])) by {
        assert(blog_directory().len() == 4);
        assert(enter(Seq::<Seq<char>>::empty(), blog_directory()) == Some(
            Seq::<Seq<char>>::empty().push(blog_directory()),
        ));
        assert(Seq::<Seq<char>>::empty().push(blog_directory()) =~= seq![blog_directory()]);
    }
    // The link steps into the file.
    lemma_pieces_of_segment(file);
    let link = pieces(file, '/');
    assert(link.drop_last().len() == 0);
    assert(walk(directory_of(document), link.drop_last()) == directory_of(document));
    let stack = seq![blog_directory(), file];
    assert(walk(directory_of(document), link) == Some(stack)) by {
        assert(file.len() >= 3);
        assert(seq![blog_directory()].push(file) =~= stack);
    }
    assert(rooted(stack) == blog_url(file)) by {
        assert(stack.drop_last() =~= seq![blog_directory()]);
        assert(stack.drop_last().drop_last().len() == 0);
        assert(joined(stack.drop_last().drop_last()) =~= Seq::<char>::empty());
        assert(joined(stack.drop_last()) =~= seq!['/'] + blog_directory());
        assert(joined(stack) =~= blog_url(file));
    }
    lemma_blog_entry_is_served_by_slug(name);
}

/// A link to a page that is no blog entry, written with its canonical path
/// from the content root, leads to that path without the Markdown extension,
/// whichever document it is written in.
pub proof fn lemma_page_link(document: Seq<char>, path: Seq<char>, kind: TargetKind)
    requires
        is_canonical(path),
        has_markdown_extension(path),
        kind == TargetKind::Link ==> blog_slug(path) is None,
    ensures
        rewritten(document, path, kind) == Some(without_extension(path)),
{
    lemma_canonical_is_internal(path);
    lemma_resolve_canonical(document, path);
}

} // verus!
