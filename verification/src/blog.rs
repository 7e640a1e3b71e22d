//! The blog: its entries, their order, and the index of their tags.

use vstd::prelude::*;
use crate::blog_name::{dated_name, parse_blog_file_name};
use crate::date::Date;
use crate::error::Error;
use crate::history::{
    history_or_empty, is_checked, lemma_modifying_visited, modifying, Commit, CommitTime, Visit,
};
use crate::link::blog_directory;
use crate::markdown::{processed, read_md, reports, Markdown, Metadata};
use crate::path::{
    extension, file_name, file_name_of, file_stem, find_extension_dot, stem,
};
use crate::text::{lemma_pieces_nonempty, pieces, same_text, split, texts, views};

verus! {

/// One entry of the blog.
#[derive(Debug, PartialEq, Eq)]
pub struct BlogEntry {
    /// The root-relative path of the source file: `blog/yyyy-mm-dd-slug.md`.
    pub rel_md_path: String,
    /// The publish date.
    pub time: Date,
    pub slug: String,
    /// The commits that changed the source file, newest first.
    pub commits: Vec<Commit>,
    pub markdown: Markdown,
}

/// The last commit of an entry, with what is needed to link to it.
#[derive(Debug, PartialEq, Eq)]
pub struct BlogCommit {
    pub time: CommitTime,
    pub hash: String,
    pub summary: Option<String>,
    pub base_url: String,
}

impl BlogEntry {
    /// The publish date is a date of the calendar, and the time of every
    /// commit can be written.
    pub open spec fn wf(&self) -> bool {
        &&& self.time.wf()
        &&& forall|i: int| 0 <= i < self.commits@.len() ==> (#[trigger] self.commits@[i]).time.wf()
    }

    /// Tells whether this entry is well-formed.
    pub fn check(&self) -> (valid: bool)
        ensures
            valid == self.wf(),
    {
        if !self.time.check() {
            return false;
        }
        let mut i: usize = 0;
        while i < self.commits.len()
            invariant
                i <= self.commits.len(),
                forall|k: int| 0 <= k < i ==> (#[trigger] self.commits@[k]).time.wf(),
            decreases self.commits.len() - i,
        {
            if !self.commits[i].time.check() {
                return false;
            }
            i += 1;
        }
        true
    }

    /// The tags of the entry.
    pub open spec fn tags(&self) -> Seq<Seq<char>> {
        texts(self.markdown.meta.tags@)
    }

    /// Parses the path of a blog entry file, `dir/yyyy-mm-dd-slug.md`:
    /// the file name of `path`, without its extension, must be a blog entry
    /// name.
    pub fn parse_path(path: &str) -> (result: Result<(Date, String), Error>)
        ensures
            match dated_name(stem(file_name(path@))) {
                Some((date, slug)) => result matches Ok((d, s)) && d == date && s@ == slug
                    && d.wf(),
                None => result matches Err(Error::InvalidBlogFilename { name: n }) && n@
                    == stem(file_name(path@)),
            },
    {
        parse_blog_file_name(file_stem(file_name_of(path)))
    }

    /// Makes the blog entry of the file at the root-relative path `path`,
    /// wherever it lies.
    ///
    /// `content` is the text of the file, `metadata` what reading its metadata
    /// block gave, and `commits` its history, newest commit first. A file that
    /// is not named as a blog entry, and a document that cannot be processed,
    /// fail the entry.
    pub fn new(path: &str, content: &str, metadata: Metadata, commits: Vec<Commit>) -> (result:
        Result<BlogEntry, Error>)
        requires
            forall|i: int| 0 <= i < commits@.len() ==> (#[trigger] commits@[i]).time.wf(),
        ensures
            match dated_name(stem(file_name(path@))) {
                None => result matches Err(Error::InvalidBlogFilename { name: n }) && n@
                    == stem(file_name(path@)),
                Some((date, slug)) => match processed(path@, content@, metadata) {
                    Err(failure) => result matches Err(e) && reports(e, failure, path@),
                    Ok(markdown) => result matches Ok(entry) && entry.wf() && entry.rel_md_path@
                        == path@ && entry.time == date && entry.slug@ == slug && entry.commits@
                        == commits@ && entry.markdown@ == markdown,
                },
            },
    {
        let (time, slug) = match BlogEntry::parse_path(path) {
            Ok(name) => name,
            Err(error) => {
                return Err(error);
            },
        };
        match read_md(path, content, metadata) {
            Ok(markdown) => Ok(
                BlogEntry { rel_md_path: String::from_str(path), time, slug, commits, markdown },
            ),
            Err(error) => Err(error),
        }
    }
}

/// The file name of the Markdown file that lies directly in the blog
/// directory at the root-relative path `path`; `None` for any other path.
pub open spec fn blog_file(path: Seq<char>) -> Option<Seq<char>> {
    let segments = pieces(path, '/');
    if segments.len() == 2 && segments[0] == blog_directory() && extension(segments[1]) == Some(
        seq!['m', 'd'],
    ) {
        Some(segments[1])
    } else {
        None
    }
}

/// Tells whether the file at the root-relative path `rel_path` is a Markdown
/// file directly in the blog directory, and if so gives its file name.
pub fn blog_file_name<'a>(rel_path: &'a str) -> (file: Option<&'a str>)
    ensures
        match blog_file(rel_path@) {
            Some(name) => file matches Some(f) && f@ == name,
            None => file is None,
        },
{
    let segments = split(rel_path, '/');
    if segments.len() != 2 {
        return None;
    }
    proof {
        reveal_strlit("blog");
        assert("blog"@ =~= blog_directory());
        assert(views(segments@)[0] == segments@[0]@);
        assert(views(segments@)[1] == segments@[1]@);
    }
    if !same_text(segments[0], "blog") {
        return None;
    }
    let file = segments[1];
    let dot = find_extension_dot(file);
    if dot == 0 {
        return None;
    }
    let n = file.unicode_len();
    let is_markdown = n - dot == 3 && file.get_char(dot + 1) == 'm' && file.get_char(dot + 2)
        == 'd';
    proof {
        let rest = file@.skip(dot + 1);
        if is_markdown {
            assert(rest =~= seq!['m', 'd']);
        } else if rest == seq!['m', 'd'] {
            assert(rest.len() == 2);
            assert(rest[0] == 'm' && rest[1] == 'd');
        }
    }
    if is_markdown {
        Some(file)
    } else {
        None
    }
}

/// The history that an entry gets from a lookup: the commits that changed its
/// file, or none where the lookup itself failed.
pub open spec fn history_of(lookup: Result<Vec<Visit>, Error>) -> Seq<Commit> {
    match lookup {
        Ok(visits) => modifying(visits@),
        Err(_) => Seq::<Commit>::empty(),
    }
}

/// Makes the blog entry of the file at `rel_md_path`, if that file is the
/// source of one.
///
/// Every Markdown file directly in the blog directory is the source of a blog
/// entry, and no other file is: for another file the result is `Ok(None)`.
/// `content` is the text of the file, `metadata` what reading its metadata
/// block gave, and `lookup` the walk through the history for this file. A
/// file that is not named as a blog entry fails the build, and so does a
/// document that cannot be processed. A lookup that failed leaves the entry
/// without history.
pub fn try_get_blog_entry(
    rel_md_path: &str,
    content: &str,
    metadata: Metadata,
    lookup: Result<Vec<Visit>, Error>,
) -> (result: Result<Option<BlogEntry>, Error>)
    requires
        lookup matches Ok(visits) ==> is_checked(visits@),
    ensures
        match blog_file(rel_md_path@) {
            None => result matches Ok(None),
            Some(file) => match dated_name(stem(file)) {
                None => result matches Err(Error::InvalidBlogFilename { name }) && name@ == stem(
                    file,
                ),
                Some((date, slug)) => match processed(rel_md_path@, content@, metadata) {
                    Err(failure) => result matches Err(e) && reports(e, failure, rel_md_path@),
                    Ok(markdown) => result matches Ok(Some(entry)) && entry.wf()
                        && entry.rel_md_path@ == rel_md_path@ && entry.time == date
                        && entry.slug@ == slug && entry.commits@ == history_of(lookup)
                        && entry.markdown@ == markdown,
                },
            },
        },
{
    let file = match blog_file_name(rel_md_path) {
        Some(file) => file,
        None => {
            return Ok(None);
        },
    };
    proof {
        lemma_pieces_nonempty(rel_md_path@, '/');
        assert(file@ == file_name(rel_md_path@));
        if lookup is Ok {
            let visits = lookup->Ok_0@;
            assert forall|k: int| 0 <= k < modifying(visits).len() implies (
            #[trigger] modifying(visits)[k]).time.wf() by {
                lemma_modifying_visited(visits, k);
            }
        }
    }
    let commits = history_or_empty(lookup);
    match BlogEntry::new(rel_md_path, content, metadata, commits) {
        Ok(entry) => Ok(Some(entry)),
        Err(error) => Err(error),
    }
}

/// Whether the entries stand newest first.
pub open spec fn is_newest_first(entries: Seq<BlogEntry>) -> bool {
    forall|i: int, j: int|
        0 <= i < j < entries.len() ==> entries[i].time.rank() >= entries[j].time.rank()
}

/// Whether `after` holds the entries of `before`, each once, with `after[i]`
/// taken from `before[origin[i]]`, and entries of one date in the order that
/// they had in `before`.
pub open spec fn is_stable_rearrangement(
    before: Seq<BlogEntry>,
    after: Seq<BlogEntry>,
    origin: Seq<int>,
) -> bool {
    &&& after.len() == before.len()
    &&& origin.len() == before.len()
    &&& forall|i: int|
        0 <= i < after.len() ==> 0 <= #[trigger] origin[i] < before.len() && after[i]
            == before[origin[i]]
    &&& forall|i: int, j: int| 0 <= i < j < origin.len() ==> origin[i] != origin[j]
    &&& forall|i: int, j: int|
        0 <= i < j < after.len() && after[i].time.rank() == after[j].time.rank() ==> origin[i]
            < origin[j]
}

/// Orders the entries by publish date, newest first. Entries of one date keep
/// the order in which they were given.
pub fn sort_newest_first(entries: Vec<BlogEntry>) -> (sorted: Vec<BlogEntry>)
    ensures
        is_newest_first(sorted@),
        exists|origin: Seq<int>| is_stable_rearrangement(entries@, sorted@, origin),
{
    let mut rest = entries;
    let mut sorted: Vec<BlogEntry> = Vec::new();
    let ghost mut origin: Seq<int> = Seq::empty();
    let ghost mut taken: int = 0;
    proof {
        assert(entries@.skip(0) == entries@);
    }
    while rest.len() > 0
        invariant
            0 <= taken <= entries@.len(),
            rest@ == entries@.skip(taken),
            is_newest_first(sorted@),
            is_stable_rearrangement(entries@.take(taken), sorted@, origin),
        decreases rest.len(),
    {
        let entry = rest.remove(0);
        let mut p: usize = 0;
        while p < sorted.len() && !sorted[p].time.is_before(&entry.time)
            invariant
                p <= sorted.len(),
                forall|k: int| 0 <= k < p ==> sorted@[k].time.rank() >= entry.time.rank(),
            decreases sorted.len() - p,
        {
            p += 1;
        }
        let ghost old_sorted = sorted@;
        let ghost old_origin = origin;
        sorted.insert(p, entry);
        proof {
            origin = old_origin.insert(p as int, taken);
            let before = entries@.take(taken);
            let longer = entries@.take(taken + 1);
            assert(entry == entries@[taken]);
            assert(rest@ == entries@.skip(taken + 1));
            assert forall|k: int| p <= k < old_sorted.len() implies old_sorted[k].time.rank()
                < entry.time.rank() by {
                if k > p {
                    assert(old_sorted[p as int].time.rank() >= old_sorted[k].time.rank());
                }
            }
            assert forall|i: int, j: int| 0 <= i < j < sorted@.len() implies sorted@[i].time.rank()
                >= sorted@[j].time.rank() by {
                let a = if i < p { i } else { i - 1 };
                let b = if j < p { j } else { j - 1 };
                if i != p && j != p {
                    assert(old_sorted[a].time.rank() >= old_sorted[b].time.rank());
                }
            }
            assert forall|i: int| 0 <= i < sorted@.len() implies 0 <= #[trigger] origin[i]
                < longer.len() && sorted@[i] == longer[origin[i]] by {
                if i < p {
                    assert(origin[i] == old_origin[i]);
                    assert(sorted@[i] == before[old_origin[i]]);
                } else if i > p {
                    assert(origin[i] == old_origin[i - 1]);
                    assert(sorted@[i] == before[old_origin[i - 1]]);
                }
            }
            assert forall|i: int, j: int| 0 <= i < j < origin.len() implies origin[i]
                != origin[j] by {
                let a = if i < p { i } else { i - 1 };
                let b = if j < p { j } else { j - 1 };
                if i != p && j != p {
                    assert(old_origin[a] != old_origin[b]);
                } else if i == p {
                    assert(origin[j] == old_origin[b]);
                } else {
                    assert(origin[i] == old_origin[a]);
                }
            }
            assert forall|i: int, j: int|
                0 <= i < j < sorted@.len() && sorted@[i].time.rank()
                    == sorted@[j].time.rank() implies origin[i] < origin[j] by {
                let a = if i < p { i } else { i - 1 };
                let b = if j < p { j } else { j - 1 };
                if i != p && j != p {
                    assert(old_sorted[a].time.rank() == old_sorted[b].time.rank());
                    assert(old_origin[a] < old_origin[b]);
                } else if i == p {
                    assert(old_sorted[b].time.rank() < entry.time.rank());
                } else {
                    assert(origin[i] == old_origin[a]);
                }
            }
            taken = taken + 1;
        }
    }
    proof {
        assert(entries@.take(taken) == entries@);
    }
    sorted
}

/// The entries of one tag.
#[derive(Debug, PartialEq, Eq)]
pub struct TagBucket {
    pub tag: String,
    /// The places, in the list of entries, of the entries that carry the tag.
    pub entries: Vec<usize>,
}

/// Whether `entry` carries `tag`.
pub open spec fn carries(entry: BlogEntry, tag: Seq<char>) -> bool {
    entry.tags().contains(tag)
}

/// The places of the entries that carry `tag`, in ascending order. An entry
/// that names the tag more than once is listed once.
pub open spec fn carriers(entries: Seq<BlogEntry>, tag: Seq<char>) -> Seq<int>
    decreases entries.len(),
{
    if entries.len() == 0 {
        Seq::<int>::empty()
    } else if carries(entries.last(), tag) {
        carriers(entries.drop_last(), tag).push(entries.len() - 1)
    } else {
        carriers(entries.drop_last(), tag)
    }
}

/// The tags of all entries, entry after entry.
pub open spec fn all_tags(entries: Seq<BlogEntry>) -> Seq<Seq<char>>
    decreases entries.len(),
{
    if entries.len() == 0 {
        Seq::<Seq<char>>::empty()
    } else {
        all_tags(entries.drop_last()) + entries.last().tags()
    }
}

/// `list` without repetitions: each item stands where it first occurs.
pub open spec fn distinct(list: Seq<Seq<char>>) -> Seq<Seq<char>>
    decreases list.len(),
{
    if list.len() == 0 {
        Seq::<Seq<char>>::empty()
    } else if distinct(list.drop_last()).contains(list.last()) {
        distinct(list.drop_last())
    } else {
        distinct(list.drop_last()).push(list.last())
    }
}

/// The places that a bucket lists.
pub open spec fn places(bucket: TagBucket) -> Seq<int> {
    bucket.entries@.map_values(|place: usize| place as int)
}

/// The tags of a list of buckets.
pub open spec fn bucket_tags(buckets: Seq<TagBucket>) -> Seq<Seq<char>> {
    buckets.map_values(|bucket: TagBucket| bucket.tag@)
}

/// Whether `buckets` is the tag index of `entries`: one bucket for each tag
/// that occurs, in the order in which the tags first occur, and in each bucket
/// the places of exactly the entries that carry its tag, in the order of the
/// entries.
pub open spec fn is_tag_index(entries: Seq<BlogEntry>, buckets: Seq<TagBucket>) -> bool {
    &&& bucket_tags(buckets) == distinct(all_tags(entries))
    &&& forall|b: int|
        0 <= b < buckets.len() ==> places(#[trigger] buckets[b]) == carriers(
            entries,
            buckets[b].tag@,
        )
}

/// The tags met when the first `k` tags of entry `i` have been read.
pub open spec fn met(entries: Seq<BlogEntry>, i: int, k: int) -> Seq<Seq<char>> {
    all_tags(entries.take(i)) + entries[i].tags().take(k)
}

/// The places that the bucket of `tag` lists at that point.
pub open spec fn listed(entries: Seq<BlogEntry>, i: int, k: int, tag: Seq<char>) -> Seq<int> {
    if entries[i].tags().take(k).contains(tag) {
        carriers(entries.take(i), tag).push(i)
    } else {
        carriers(entries.take(i), tag)
    }
}

/// Whether `buckets` is the tag index at that point.
pub open spec fn is_index_so_far(
    entries: Seq<BlogEntry>,
    i: int,
    k: int,
    buckets: Seq<TagBucket>,
) -> bool {
    &&& bucket_tags(buckets) == distinct(met(entries, i, k))
    &&& forall|b: int|
        0 <= b < buckets.len() ==> places(#[trigger] buckets[b]) == listed(
            entries,
            i,
            k,
            buckets[b].tag@,
        )
}

/// Every place that is listed for a tag is a place of the list.
pub proof fn lemma_carriers_are_places(entries: Seq<BlogEntry>, tag: Seq<char>)
    ensures
        forall|x: int|
            0 <= x < carriers(entries, tag).len() ==> 0 <= #[trigger] carriers(entries, tag)[x]
                < entries.len(),
    decreases entries.len(),
{
    if entries.len() > 0 {
        lemma_carriers_are_places(entries.drop_last(), tag);
        let before = carriers(entries.drop_last(), tag);
        assert forall|x: int| 0 <= x < carriers(entries, tag).len() implies 0 <= #[trigger] carriers(
            entries,
            tag,
        )[x] < entries.len() by {
            if x < before.len() {
                assert(carriers(entries, tag)[x] == before[x]);
            }
        }
    }
}

/// A list without repetitions holds what the list holds.
pub proof fn lemma_distinct_holds_the_same(list: Seq<Seq<char>>, item: Seq<char>)
    ensures
        distinct(list).contains(item) <==> list.contains(item),
    decreases list.len(),
{
    if list.len() > 0 {
        let before = list.drop_last();
        lemma_distinct_holds_the_same(before, item);
        if list.contains(item) {
            let at = choose|at: int| 0 <= at < list.len() && list[at] == item;
            if at < before.len() {
                assert(before[at] == item);
            }
        }
        if before.contains(item) {
            let at = choose|at: int| 0 <= at < before.len() && before[at] == item;
            assert(list[at] == item);
        }
        if distinct(before).contains(list.last()) {
        } else {
            let longer = distinct(before).push(list.last());
            assert(longer[longer.len() - 1] == list.last());
            assert(list[list.len() - 1] == list.last());
            if distinct(before).contains(item) {
                let at = choose|at: int| 0 <= at < distinct(before).len() && distinct(before)[at] == item;
                assert(longer[at] == item);
            }
            if longer.contains(item) {
                let at = choose|at: int| 0 <= at < longer.len() && longer[at] == item;
                if at < distinct(before).len() {
                    assert(distinct(before)[at] == item);
                }
            }
        }
    }
}

/// A list without repetitions holds nothing twice.
pub proof fn lemma_distinct_has_no_repetition(list: Seq<Seq<char>>)
    ensures
        forall|a: int, b: int|
            0 <= a < b < distinct(list).len() ==> distinct(list)[a] != distinct(list)[b],
    decreases list.len(),
{
    if list.len() > 0 {
        lemma_distinct_has_no_repetition(list.drop_last());
        let before = distinct(list.drop_last());
        if !before.contains(list.last()) {
            assert forall|a: int, b: int| 0 <= a < b < distinct(list).len() implies distinct(
                list,
            )[a] != distinct(list)[b] by {
                if b == before.len() {
                    assert(before[a] != list.last());
                }
            }
        }
    }
}

/// A tag that no entry names has no carrier.
pub proof fn lemma_unnamed_tag_has_no_carrier(entries: Seq<BlogEntry>, tag: Seq<char>)
    requires
        !all_tags(entries).contains(tag),
    ensures
        carriers(entries, tag).len() == 0,
    decreases entries.len(),
{
    if entries.len() > 0 {
        let before = all_tags(entries.drop_last());
        let last = entries.last().tags();
        if before.contains(tag) {
            let at = choose|at: int| 0 <= at < before.len() && before[at] == tag;
            assert((before + last)[at] == tag);
        }
        if last.contains(tag) {
            let at = choose|at: int| 0 <= at < last.len() && last[at] == tag;
            assert((before + last)[before.len() + at] == tag);
        }
        lemma_unnamed_tag_has_no_carrier(entries.drop_last(), tag);
    }
}

/// Reading one more tag of an entry changes what is listed for that tag only.
proof fn lemma_listed_elsewhere(
    entries: Seq<BlogEntry>,
    i: int,
    k: int,
    tag: Seq<char>,
)
    requires
        0 <= i < entries.len(),
        0 <= k < entries[i].tags().len(),
        entries[i].tags()[k] != tag,
    ensures
        listed(entries, i, k + 1, tag) == listed(entries, i, k, tag),
{
    let shorter = entries[i].tags().take(k);
    let longer = entries[i].tags().take(k + 1);
    if longer.contains(tag) {
        let at = choose|at: int| 0 <= at < longer.len() && longer[at] == tag;
        assert(shorter[at] == tag);
    }
    if shorter.contains(tag) {
        let at = choose|at: int| 0 <= at < shorter.len() && shorter[at] == tag;
        assert(longer[at] == tag);
    }
}

/// Builds the tag index of `blog`: for each tag, the entries that carry it, in
/// the order of `blog`.
///
/// The buckets stand in the order in which their tags first occur. Each bucket
/// lists the places of the entries that carry its tag, in ascending order,
/// whether an entry names the tag once or more often.
pub fn process_tag_blog_list(blog: &Vec<BlogEntry>) -> (buckets: Vec<TagBucket>)
    ensures
        is_tag_index(blog@, buckets@),
{
    let mut buckets: Vec<TagBucket> = Vec::new();
    let mut i: usize = 0;
    proof {
        assert(bucket_tags(buckets@) =~= distinct(all_tags(blog@.take(0))));
    }
    while i < blog.len()
        invariant
            i <= blog.len(),
            is_tag_index(blog@.take(i as int), buckets@),
        decreases blog.len() - i,
    {
        let tags = &blog[i].markdown.meta.tags;
        let mut k: usize = 0;
        proof {
            assert(blog@[i as int].tags().take(0) =~= Seq::<Seq<char>>::empty());
            assert(met(blog@, i as int, 0) =~= all_tags(blog@.take(i as int)));
        }
        while k < tags.len()
            invariant
                i < blog.len(),
                k <= tags.len(),
                *tags == blog@[i as int].markdown.meta.tags,
                is_index_so_far(blog@, i as int, k as int, buckets@),
            decreases tags.len() - k,
        {
            let tag = tags[k].as_str();
            let ghost all = blog@[i as int].tags();
            let ghost before = buckets@;
            let mut j: usize = 0;
            while j < buckets.len() && !same_text(buckets[j].tag.as_str(), tag)
                invariant
                    j <= buckets.len(),
                    forall|m: int| 0 <= m < j ==> buckets@[m].tag@ != tag@,
                decreases buckets.len() - j,
            {
                j += 1;
            }
            proof {
                assert(all[k as int] == tag@);
                assert(all.take(k + 1).drop_last() =~= all.take(k as int));
                assert(met(blog@, i as int, k + 1).drop_last() =~= met(blog@, i as int, k as int));
                assert(met(blog@, i as int, k + 1).last() == tag@);
                assert(all.take(k + 1)[k as int] == tag@);
                lemma_distinct_has_no_repetition(met(blog@, i as int, k as int));
                lemma_distinct_holds_the_same(met(blog@, i as int, k as int), tag@);
                lemma_carriers_are_places(blog@.take(i as int), tag@);
                assert forall|b: int| 0 <= b < before.len() && before[b].tag@ != tag@ implies listed(
                    blog@,
                    i as int,
                    k + 1,
                    before[b].tag@,
                ) == listed(blog@, i as int, k as int, before[b].tag@) by {
                    lemma_listed_elsewhere(blog@, i as int, k as int, before[b].tag@);
                }
            }
            if j < buckets.len() {
                let mut bucket = buckets.remove(j);
                let n = bucket.entries.len();
                proof {
                    assert(bucket == before[j as int]);
                    assert(bucket_tags(before)[j as int] == tag@);
                    assert(distinct(met(blog@, i as int, k as int)).contains(tag@));
                    assert(places(bucket) == listed(blog@, i as int, k as int, tag@));
                    if n > 0 {
                        assert(places(bucket)[n - 1] == bucket.entries@[n - 1]);
                    }
                }
                if n == 0 || bucket.entries[n - 1] != i {
                    proof {
                        assert(places(bucket) == carriers(blog@.take(i as int), tag@));
                        let ghost longer = bucket.entries@.push(i);
                        assert(longer.map_values(|place: usize| place as int) =~= places(
                            bucket,
                        ).push(i as int));
                    }
                    bucket.entries.push(i);
                }
                proof {
                    assert(places(bucket) == listed(blog@, i as int, k + 1, tag@));
                }
                buckets.insert(j, bucket);
                proof {
                    assert(bucket_tags(buckets@) =~= bucket_tags(before));
                    assert forall|b: int| 0 <= b < buckets@.len() implies places(
                        #[trigger] buckets@[b],
                    ) == listed(blog@, i as int, k + 1, buckets@[b].tag@) by {
                        if b != j {
                            assert(buckets@[b] == before[b]);
                            assert(bucket_tags(before)[b] != bucket_tags(before)[j as int]);
                        }
                    }
                }
            } else {
                let mut entries: Vec<usize> = Vec::new();
                entries.push(i);
                let bucket = TagBucket { tag: String::from_str(tag), entries };
                proof {
                    assert forall|m: int| 0 <= m < before.len() implies bucket_tags(before)[m]
                        != tag@ by {
                        assert(before[m].tag@ != tag@);
                    }
                    assert(!distinct(met(blog@, i as int, k as int)).contains(tag@));
                    let so_far = met(blog@, i as int, k as int);
                    let earlier = all_tags(blog@.take(i as int));
                    if earlier.contains(tag@) {
                        let at = choose|at: int| 0 <= at < earlier.len() && earlier[at] == tag@;
                        assert(so_far[at] == tag@);
                    }
                    let read = all.take(k as int);
                    if read.contains(tag@) {
                        let at = choose|at: int| 0 <= at < read.len() && read[at] == tag@;
                        assert(so_far[earlier.len() + at] == tag@);
                    }
                    lemma_unnamed_tag_has_no_carrier(blog@.take(i as int), tag@);
                    assert(places(bucket) =~= listed(blog@, i as int, k + 1, tag@));
                }
                buckets.push(bucket);
                proof {
                    assert(bucket_tags(buckets@) =~= bucket_tags(before).push(tag@));
                    assert forall|b: int| 0 <= b < buckets@.len() implies places(
                        #[trigger] buckets@[b],
                    ) == listed(blog@, i as int, k + 1, buckets@[b].tag@) by {
                        if b < before.len() {
                            assert(buckets@[b] == before[b]);
                        }
                    }
                }
            }
            k += 1;
        }
        proof {
            let all = blog@[i as int].tags();
            let longer = blog@.take(i + 1);
            assert(all.take(k as int) =~= all);
            assert(longer.drop_last() =~= blog@.take(i as int));
            assert(longer.last() == blog@[i as int]);
            assert(all_tags(longer) == met(blog@, i as int, k as int));
            assert forall|b: int| 0 <= b < buckets@.len() implies places(#[trigger] buckets@[b])
                == carriers(longer, buckets@[b].tag@) by {
                assert(places(buckets@[b]) == listed(blog@, i as int, k as int, buckets@[b].tag@));
            }
        }
        i += 1;
    }
    proof {
        assert(blog@.take(i as int) =~= blog@);
    }
    buckets
}

} // verus!
