//! The whole blog of a site: ordered entries, tag index and feed.

use vstd::prelude::*;
use crate::blog::{
    blog_file, history_of, is_newest_first, is_stable_rearrangement, is_tag_index,
    process_tag_blog_list, sort_newest_first, try_get_blog_entry, BlogEntry, TagBucket,
};
use crate::blog_name::dated_name;
use crate::config::Config;
use crate::error::Error;
use crate::feed::{build_rss, feed_of, Feed};
use crate::history::{check_walk, is_checked, modifying, Commit, Visit};
use crate::markdown::{processed, reports, Metadata};
use crate::path::stem;
use crate::text::same_text;

verus! {

/// What is built from the blog entries of a site.
#[derive(Debug, PartialEq, Eq)]
pub struct Site {
    /// The entries, newest first.
    pub all_blog: Vec<BlogEntry>,
    /// The tag index; its places are those of `all_blog`.
    pub tags: Vec<TagBucket>,
    /// The feed, unless no entry has any history.
    pub feed: Option<Feed>,
}

/// Whether the entry at `place` has the slug of an earlier entry.
pub open spec fn repeats_slug(entries: Seq<BlogEntry>, place: int) -> bool {
    exists|i: int| 0 <= i < place && (#[trigger] entries[i]).slug@ == entries[place].slug@
}

/// Whether two entries share a slug.
pub open spec fn has_duplicate_slug(entries: Seq<BlogEntry>) -> bool {
    exists|place: int| 0 <= place < entries.len() && repeats_slug(entries, place)
}

/// Whether `place` is the first entry that has the slug of an earlier one.
pub open spec fn is_first_repetition(entries: Seq<BlogEntry>, place: int) -> bool {
    &&& 0 <= place < entries.len()
    &&& repeats_slug(entries, place)
    &&& forall|k: int| 0 <= k < place ==> !repeats_slug(entries, k)
}

/// Finds the first entry that has the slug of an earlier one.
pub fn find_duplicate_slug(entries: &Vec<BlogEntry>) -> (found: Option<usize>)
    ensures
        match found {
            Some(place) => is_first_repetition(entries@, place as int),
            None => !has_duplicate_slug(entries@),
        },
{
    let mut place: usize = 0;
    while place < entries.len()
        invariant
            place <= entries.len(),
            forall|k: int| 0 <= k < place ==> !repeats_slug(entries@, k),
        decreases entries.len() - place,
    {
        let mut i: usize = 0;
        while i < place
            invariant
                i <= place < entries.len(),
                forall|k: int| 0 <= k < place ==> !repeats_slug(entries@, k),
                forall|k: int|
                    0 <= k < i ==> (#[trigger] entries@[k]).slug@ != entries@[place as int].slug@,
            decreases place - i,
        {
            if same_text(entries[i].slug.as_str(), entries[place].slug.as_str()) {
                proof {
                    assert(entries@[i as int].slug@ == entries@[place as int].slug@);
                }
                return Some(place);
            }
            i += 1;
        }
        place += 1;
    }
    None
}

/// Whether `site` is what is built from the entries `given`, none of which
/// shares its slug with another.
pub open spec fn is_built_from(site: Site, given: Seq<BlogEntry>, config: Config) -> bool {
    &&& is_newest_first(site.all_blog@)
    &&& exists|origin: Seq<int>| is_stable_rearrangement(given, site.all_blog@, origin)
    &&& is_tag_index(site.all_blog@, site.tags@)
    &&& match feed_of(site.all_blog@, config) {
        Some(content) => site.feed matches Some(f) && f@ == content,
        None => site.feed is None,
    }
    &&& site.feed is None <==> forall|i: int|
        0 <= i < given.len() ==> (#[trigger] given[i]).commits@.len() == 0
}

/// Builds the blog of a site from its entries, given in the order in which
/// they were found.
///
/// Two entries with one slug would be served at one address: the build fails
/// and names the slug of the first entry that repeats an earlier one.
/// Otherwise the entries are ordered newest first, entries of one date keeping
/// their order; the tag index lists, for each tag, the entries that carry it
/// in that order; and the feed is built unless no entry has any history.
pub fn build(all_blog: Vec<BlogEntry>, config: &Config) -> (result: Result<Site, Error>)
    requires
        forall|i: int| 0 <= i < all_blog@.len() ==> (#[trigger] all_blog@[i]).wf(),
    ensures
        match result {
            Err(error) => error matches Error::DuplicateSlug { slug } && exists|place: int|
                is_first_repetition(all_blog@, place) && slug@ == (
                #[trigger] all_blog@[place]).slug@,
            Ok(site) => {
                &&& !has_duplicate_slug(all_blog@)
                &&& is_built_from(site, all_blog@, *config)
            },
        },
{
    match find_duplicate_slug(&all_blog) {
        Some(place) => {
            return Err(Error::DuplicateSlug { slug: all_blog[place].slug.clone() });
        },
        None => {},
    }
    let ghost given = all_blog@;
    let sorted = sort_newest_first(all_blog);
    proof {
        let origin = choose|origin: Seq<int>| is_stable_rearrangement(given, sorted@, origin);
        assert forall|i: int| 0 <= i < sorted@.len() implies (#[trigger] sorted@[i]).wf() by {
            assert(sorted@[i] == given[origin[i]]);
        }
        lemma_history_survives(given, sorted@, origin);
    }
    let tags = process_tag_blog_list(&sorted);
    let feed = build_rss(&sorted, config);
    Ok(Site { all_blog: sorted, tags, feed })
}

/// A rearrangement has an entry with history exactly when the given list has.
proof fn lemma_history_survives(before: Seq<BlogEntry>, after: Seq<BlogEntry>, origin: Seq<int>)
    requires
        is_stable_rearrangement(before, after, origin),
    ensures
        (forall|i: int| 0 <= i < after.len() ==> (#[trigger] after[i]).commits@.len() == 0)
            <==> (forall|i: int| 0 <= i < before.len() ==> (#[trigger] before[i]).commits@.len() == 0),
{
    if forall|i: int| 0 <= i < before.len() ==> (#[trigger] before[i]).commits@.len() == 0 {
        assert forall|i: int| 0 <= i < after.len() implies (#[trigger] after[i]).commits@.len()
            == 0 by {
            assert(after[i] == before[origin[i]]);
        }
    }
    if forall|i: int| 0 <= i < after.len() ==> (#[trigger] after[i]).commits@.len() == 0 {
        assert forall|i: int| 0 <= i < before.len() implies (#[trigger] before[i]).commits@.len()
            == 0 by {
            lemma_every_place_is_taken(origin, before.len() as int, i);
            let at = choose|at: int| 0 <= at < origin.len() && origin[at] == i;
            assert(after[at] == before[origin[at]]);
        }
    }
}

/// A list of `n` different numbers below `n` holds every number below `n`.
pub proof fn lemma_every_place_is_taken(origin: Seq<int>, n: int, wanted: int)
    requires
        origin.len() == n,
        0 <= wanted < n,
        forall|i: int| 0 <= i < n ==> 0 <= #[trigger] origin[i] < n,
        forall|i: int, j: int| 0 <= i < j < n ==> origin[i] != origin[j],
    ensures
        exists|at: int| 0 <= at < n && origin[at] == wanted,
{
    if !exists|at: int| 0 <= at < n && origin[at] == wanted {
        // Without `wanted`, the numbers are n different values among n - 1.
        let squeezed = Seq::new(
            origin.len(),
            |i: int| if origin[i] > wanted { origin[i] - 1 } else { origin[i] },
        );
        assert forall|i: int| 0 <= i < n implies 0 <= #[trigger] squeezed[i] < n - 1 by {
            assert(origin[i] != wanted);
        }
        assert forall|i: int, j: int| 0 <= i < j < n implies squeezed[i] != squeezed[j] by {
            assert(origin[i] != origin[j]);
            assert(origin[i] != wanted && origin[j] != wanted);
        }
        lemma_different_numbers_fit(squeezed, n - 1);
    }
}

/// Different numbers below `places` are at most `places` many.
pub proof fn lemma_different_numbers_fit(numbers: Seq<int>, places: int)
    requires
        places >= 0,
        forall|i: int| 0 <= i < numbers.len() ==> 0 <= #[trigger] numbers[i] < places,
        forall|i: int, j: int| 0 <= i < j < numbers.len() ==> numbers[i] != numbers[j],
    ensures
        numbers.len() <= places,
    decreases places,
{
    if numbers.len() == 0 {
    } else if places == 0 {
        assert(numbers[0] >= 0);
        assert(numbers[0] < places);
    } else {
        // Drop the number places - 1 where it occurs, else the last number.
        let top = places - 1;
        let at = if exists|at: int| 0 <= at < numbers.len() && numbers[at] == top {
            choose|at: int| 0 <= at < numbers.len() && numbers[at] == top
        } else {
            numbers.len() - 1
        };
        let fewer = numbers.remove(at);
        assert forall|i: int| 0 <= i < fewer.len() implies 0 <= #[trigger] fewer[i] < top by {
            let from = if i < at { i } else { i + 1 };
            assert(fewer[i] == numbers[from]);
            if numbers[from] == top {
                if from < at {
                    assert(numbers[from] != numbers[at]);
                } else {
                    assert(numbers[at] != numbers[from]);
                }
            }
        }
        assert forall|i: int, j: int| 0 <= i < j < fewer.len() implies fewer[i] != fewer[j] by {
            let a = if i < at { i } else { i + 1 };
            let b = if j < at { j } else { j + 1 };
            assert(fewer[i] == numbers[a]);
            assert(fewer[j] == numbers[b]);
        }
        lemma_different_numbers_fit(fewer, top);
    }
}

/// The state of a build: the configuration of the site, and the blog entries
/// found so far. Every entry that it holds is well-formed.
pub struct Generator {
    config: Config,
    all_blog: Vec<BlogEntry>,
}

/// The history that an entry gets from a lookup whose times may be anything:
/// the commits that changed its file, or none where the lookup failed or
/// holds a time that is not well-formed.
pub open spec fn checked_history(lookup: Result<Vec<Visit>, Error>) -> Seq<Commit> {
    match lookup {
        Ok(visits) if is_checked(visits@) => modifying(visits@),
        _ => Seq::<Commit>::empty(),
    }
}

/// Whether `entry` is the blog entry of the file at `path` with the text
/// `content`, whose metadata block gave `metadata` and whose history is
/// `commits`.
pub open spec fn is_entry_of(
    entry: BlogEntry,
    path: Seq<char>,
    content: Seq<char>,
    metadata: Metadata,
    commits: Seq<Commit>,
) -> bool {
    &&& blog_file(path) matches Some(file) && dated_name(stem(file)) matches Some((date, slug))
        && entry.time == date && entry.slug@ == slug
    &&& processed(path, content, metadata) matches Ok(markdown) && entry.markdown@ == markdown
    &&& entry.rel_md_path@ == path
    &&& entry.commits@ == commits
    &&& entry.wf()
}

/// The failure of the file at `path`, if it is a blog file that gives no
/// entry: a name that is no blog entry name, or a document that cannot be
/// processed.
pub open spec fn entry_failure(path: Seq<char>, content: Seq<char>, metadata: Metadata) -> Option<
    EntryFailure,
> {
    match blog_file(path) {
        None => None,
        Some(file) => match dated_name(stem(file)) {
            None => Some(EntryFailure::InvalidBlogFilename(stem(file))),
            Some(_) => match processed(path, content, metadata) {
                Err(failure) => Some(EntryFailure::Document(failure)),
                Ok(_) => None,
            },
        },
    }
}

/// The ways in which a blog file gives no entry.
pub enum EntryFailure {
    /// Its name, given here without the extension, is no blog entry name.
    InvalidBlogFilename(Seq<char>),
    /// Its document cannot be processed.
    Document(crate::markdown::Failure),
}

impl Generator {
    /// Every entry found so far is well-formed.
    #[verifier::type_invariant]
    spec fn holds_well_formed_entries(self) -> bool {
        forall|i: int| 0 <= i < self.all_blog@.len() ==> (#[trigger] self.all_blog@[i]).wf()
    }

    /// The configuration of the site.
    pub closed spec fn settings(&self) -> Config {
        self.config
    }

    /// The blog entries found so far, in the order in which they were found.
    pub closed spec fn found(&self) -> Seq<BlogEntry> {
        self.all_blog@
    }

    /// A build of the site of `config` that has found no entry yet.
    pub fn new(config: Config) -> (generator: Generator)
        ensures
            generator.settings() == config,
            generator.found().len() == 0,
    {
        Generator { config, all_blog: Vec::new() }
    }

    /// The configuration of the site.
    pub fn config(&self) -> (config: &Config)
        ensures
            *config == self.settings(),
    {
        &self.config
    }

    /// Takes note of a blog entry that was found, if it is well-formed, and
    /// tells whether it did.
    pub fn add_blog_entry(self, blog_entry: BlogEntry) -> (next: (Generator, bool))
        ensures
            next.1 == blog_entry.wf(),
            next.0.settings() == self.settings(),
            next.0.found() == if next.1 {
                self.found().push(blog_entry)
            } else {
                self.found()
            },
    {
        proof {
            use_type_invariant(&self);
        }
        if blog_entry.check() {
            let Generator { config, all_blog } = self;
            let mut all_blog = all_blog;
            all_blog.push(blog_entry);
            (Generator { config, all_blog }, true)
        } else {
            (self, false)
        }
    }

    /// Handles one file of the content: where the file at `rel_path` is the
    /// source of a blog entry, the entry is made and taken note of.
    ///
    /// `content` is the text of the file, `metadata` what reading its metadata
    /// block gave, and `lookup` the walk through the history for this file.
    /// The result is the state to go on with, and whether an entry was added:
    /// the entries found grow by exactly that entry, and stay as they are
    /// otherwise. A blog file whose name is no blog entry name, or whose
    /// document cannot be processed, fails the build. A lookup that failed,
    /// or that holds a time that is not well-formed, leaves the entry without
    /// history.
    pub fn handle_blog_file(
        self,
        rel_path: &str,
        content: &str,
        metadata: Metadata,
        lookup: Result<Vec<Visit>, Error>,
    ) -> (next: (Generator, Result<bool, Error>))
        ensures
            next.0.settings() == self.settings(),
            match next.1 {
                Ok(true) => next.0.found().len() == self.found().len() + 1 && next.0.found()
                    == self.found().push(next.0.found().last()) && is_entry_of(
                    next.0.found().last(),
                    rel_path@,
                    content@,
                    metadata,
                    checked_history(lookup),
                ),
                Ok(false) => next.0.found() == self.found() && blog_file(rel_path@) is None,
                Err(error) => next.0.found() == self.found() && match entry_failure(
                    rel_path@,
                    content@,
                    metadata,
                ) {
                    Some(EntryFailure::InvalidBlogFilename(name)) => error matches Error::InvalidBlogFilename {
                        name: n,
                    } && n@ == name,
                    Some(EntryFailure::Document(failure)) => reports(error, failure, rel_path@),
                    None => false,
                },
            },
            next.1 is Err <==> entry_failure(rel_path@, content@, metadata) is Some,
    {
        let usable = match lookup {
            Ok(visits) => if check_walk(&visits) {
                Ok(visits)
            } else {
                Err(Error::HistoryLookup { path: String::from_str(rel_path) })
            },
            Err(error) => Err(error),
        };
        proof {
            use_type_invariant(&self);
            assert(history_of(usable) == checked_history(lookup));
        }
        match try_get_blog_entry(rel_path, content, metadata, usable) {
            Ok(Some(blog_entry)) => {
                let Generator { config, all_blog } = self;
                let mut all_blog = all_blog;
                all_blog.push(blog_entry);
                (Generator { config, all_blog }, Ok(true))
            },
            Ok(None) => (self, Ok(false)),
            Err(error) => (self, Err(error)),
        }
    }

    /// Builds the blog from the entries that were found.
    pub fn build(self) -> (result: Result<Site, Error>)
        ensures
            match result {
                Err(error) => error matches Error::DuplicateSlug { slug } && exists|place: int|
                    is_first_repetition(self.found(), place) && slug@ == (
                    #[trigger] self.found()[place]).slug@,
                Ok(site) => {
                    &&& !has_duplicate_slug(self.found())
                    &&& is_built_from(site, self.found(), self.settings())
                },
            },
    {
        proof {
            use_type_invariant(&self);
        }
        let ghost found = self.all_blog@;
        let result = build(self.all_blog, &self.config);
        proof {
            if result is Err {
                let slug = result->Err_0->DuplicateSlug_slug@;
                let place = choose|place: int|
                    is_first_repetition(found, place) && slug == (#[trigger] found[place]).slug@;
                assert(self.found()[place].slug@ == slug);
            }
        }
        result
    }
}

} // verus!
