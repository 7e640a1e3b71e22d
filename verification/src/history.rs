//! The history of a file: the commits that changed it.

use vstd::prelude::*;
use crate::date::{is_writable_instant, Date, FIRST_SECOND, LAST_SECOND};

verus! {

/// When a commit was made.
#[derive(Clone, Copy, Debug, PartialEq, Eq, Structural)]
pub struct CommitTime {
    /// The instant, in seconds from 1970-01-01T00:00:00Z.
    pub seconds: i64,
    /// The offset from UTC of the recording clock, in seconds.
    pub offset_seconds: i32,
    /// The day that the recording clock showed.
    pub date: Date,
}

/// One commit of the history.
#[derive(Debug, PartialEq, Eq)]
pub struct Commit {
    pub hash: String,
    pub time: CommitTime,
    /// The first line of the message, where it has one.
    pub summary: Option<String>,
}

/// What the walk through the commit graph finds at one commit: the commit, and
/// the number of differences, within the path asked for, between its tree and
/// the tree of its first parent (the empty tree for a root commit).
#[derive(Debug, PartialEq, Eq)]
pub struct Visit {
    pub commit: Commit,
    pub changes: usize,
}

/// The commits of a walk that changed the path, in the order of the walk.
pub open spec fn modifying(visits: Seq<Visit>) -> Seq<Commit>
    decreases visits.len(),
{
    if visits.len() == 0 {
        Seq::<Commit>::empty()
    } else if visits[0].changes > 0 {
        seq![visits[0].commit] + modifying(visits.skip(1))
    } else {
        modifying(visits.skip(1))
    }
}

/// Every commit of a history comes from the walk.
pub proof fn lemma_modifying_visited(visits: Seq<Visit>, k: int)
    requires
        0 <= k < modifying(visits).len(),
    ensures
        exists|i: int| 0 <= i < visits.len() && (#[trigger] visits[i]).commit == modifying(visits)[k],
    decreases visits.len(),
{
    if visits.len() > 0 {
        let rest = visits.skip(1);
        if visits[0].changes > 0 && k == 0 {
            assert(visits[0].commit == modifying(visits)[k]);
        } else {
            let shifted = if visits[0].changes > 0 {
                k - 1
            } else {
                k
            };
            lemma_modifying_visited(rest, shifted);
            let i = choose|i: int|
                0 <= i < rest.len() && (#[trigger] rest[i]).commit == modifying(rest)[shifted];
            assert(visits[i + 1] == rest[i]);
        }
    }
}

/// Whether the commits stand newest first.
pub open spec fn is_newest_first(commits: Seq<Commit>) -> bool {
    forall|i: int, j: int|
        0 <= i < j < commits.len() ==> commits[i].time.seconds >= commits[j].time.seconds
}

/// The commits of a walk, whether they changed the path or not.
pub open spec fn visited(visits: Seq<Visit>) -> Seq<Commit> {
    visits.map_values(|visit: Visit| visit.commit)
}

/// The history of a walk that goes from newer to older commits is newest
/// first.
pub proof fn lemma_history_is_newest_first(visits: Seq<Visit>)
    requires
        is_newest_first(visited(visits)),
    ensures
        is_newest_first(modifying(visits)),
    decreases visits.len(),
{
    if visits.len() > 0 {
        let rest = visits.skip(1);
        assert forall|i: int, j: int| 0 <= i < j < rest.len() implies visited(rest)[i].time.seconds
            >= visited(rest)[j].time.seconds by {
            assert(visited(visits)[i + 1] == visited(rest)[i]);
            assert(visited(visits)[j + 1] == visited(rest)[j]);
        }
        lemma_history_is_newest_first(rest);
        if visits[0].changes > 0 {
            let history = modifying(visits);
            assert forall|i: int, j: int| 0 <= i < j < history.len() implies history[i].time.seconds
                >= history[j].time.seconds by {
                if i == 0 {
                    lemma_modifying_visited(rest, j - 1);
                    let at = choose|at: int|
                        0 <= at < rest.len() && (#[trigger] rest[at]).commit == modifying(rest)[j
                            - 1];
                    assert(visited(visits)[at + 1] == rest[at].commit);
                    assert(visited(visits)[0] == visits[0].commit);
                } else {
                    assert(history[i] == modifying(rest)[i - 1]);
                    assert(history[j] == modifying(rest)[j - 1]);
                }
            }
        }
    }
}

/// A path that no visited commit changed has an empty history.
pub proof fn lemma_untouched_has_no_history(visits: Seq<Visit>)
    requires
        forall|i: int| 0 <= i < visits.len() ==> (#[trigger] visits[i]).changes == 0,
    ensures
        modifying(visits).len() == 0,
    decreases visits.len(),
{
    if visits.len() > 0 {
        assert forall|i: int| 0 <= i < visits.skip(1).len() implies (#[trigger] visits.skip(
            1,
        )[i]).changes == 0 by {
            assert(visits.skip(1)[i] == visits[i + 1]);
        }
        lemma_untouched_has_no_history(visits.skip(1));
    }
}

/// The history of a file, given the walk from the tip of the current branch,
/// newest commit first: the commits whose difference to their first parent,
/// within the file's path, is not empty. The order of the walk is kept. A file
/// that no commit changed has an empty history.
pub fn commits_for_file(visits: Vec<Visit>) -> (commits: Vec<Commit>)
    ensures
        commits@ == modifying(visits@),
        (forall|i: int| 0 <= i < visits@.len() ==> (#[trigger] visits@[i]).changes == 0)
            ==> commits@.len() == 0,
        is_newest_first(visited(visits@)) ==> is_newest_first(commits@),
{
    let mut rest = visits;
    let mut commits: Vec<Commit> = Vec::new();
    proof {
        assert(commits@ + modifying(rest@) == modifying(visits@));
    }
    while rest.len() > 0
        invariant
            commits@ + modifying(rest@) == modifying(visits@),
        decreases rest.len(),
    {
        let ghost before = rest@;
        let visit = rest.remove(0);
        proof {
            assert(rest@ == before.skip(1));
        }
        if visit.changes > 0 {
            proof {
                assert(commits@.push(visit.commit) + modifying(rest@) == commits@ + (
                seq![visit.commit] + modifying(rest@)));
            }
            commits.push(visit.commit);
        }
    }
    proof {
        assert(commits@ + modifying(rest@) == commits@);
        if forall|i: int| 0 <= i < visits@.len() ==> (#[trigger] visits@[i]).changes == 0 {
            lemma_untouched_has_no_history(visits@);
        }
        if is_newest_first(visited(visits@)) {
            lemma_history_is_newest_first(visits@);
        }
    }
    commits
}

/// The parent with whose tree the tree of a commit is compared, given the
/// number of its parents: the first parent, or none for a root commit, whose
/// tree is compared with the empty tree.
pub fn compared_parent(parent_count: usize) -> (parent: Option<usize>)
    ensures
        parent == if parent_count > 0 {
            Some(0usize)
        } else {
            None
        },
{
    if parent_count > 0 {
        Some(0)
    } else {
        None
    }
}

/// Whether the time of every commit of a walk is well-formed.
pub open spec fn is_checked(visits: Seq<Visit>) -> bool {
    forall|i: int| 0 <= i < visits.len() ==> (#[trigger] visits[i]).commit.time.wf()
}

/// Tells whether the time of every commit of a walk is well-formed.
pub fn check_walk(visits: &Vec<Visit>) -> (valid: bool)
    ensures
        valid == is_checked(visits@),
{
    let mut i: usize = 0;
    while i < visits.len()
        invariant
            i <= visits.len(),
            forall|k: int| 0 <= k < i ==> (#[trigger] visits@[k]).commit.time.wf(),
        decreases visits.len() - i,
    {
        if !visits[i].commit.time.check() {
            return false;
        }
        i += 1;
    }
    true
}

/// The history to go on with when the lookup itself failed: a file whose
/// history cannot be read counts as a file without history.
pub fn history_or_empty<E>(lookup: Result<Vec<Visit>, E>) -> (commits: Vec<Commit>)
    ensures
        match lookup {
            Ok(visits) => commits@ == modifying(visits@),
            Err(_) => commits@.len() == 0,
        },
{
    match lookup {
        Ok(visits) => commits_for_file(visits),
        Err(_) => Vec::new(),
    }
}

/// The day, in the calendar, that holds the second `seconds` counted from
/// 1970-01-01T00:00:00.
pub uninterp spec fn civil_date(seconds: int) -> Date;

/// The offset from UTC, in seconds, that counts for a commit recorded with
/// `offset_minutes`: the offset itself when it is shorter than a day, and none
/// otherwise.
pub open spec fn kept_offset(offset_minutes: int) -> int {
    if -86_400 < offset_minutes * 60 < 86_400 {
        offset_minutes * 60
    } else {
        0
    }
}

impl CommitTime {
    /// The instant and the time on the recording clock both fall in the years
    /// 0 to 9999, and the date is the day that the recording clock showed.
    pub open spec fn wf(self) -> bool {
        &&& is_writable_instant(self.seconds as int)
        &&& is_writable_instant(self.seconds + self.offset_seconds)
        &&& self.date == civil_date(self.seconds + self.offset_seconds)
    }

    /// Tells whether this time is well-formed.
    pub fn check(&self) -> (valid: bool)
        ensures
            valid == self.wf(),
            valid ==> self.date.wf(),
    {
        if self.seconds < FIRST_SECOND || self.seconds > LAST_SECOND {
            return false;
        }
        let local: i64 = self.seconds + self.offset_seconds as i64;
        if local < FIRST_SECOND || local > LAST_SECOND {
            return false;
        }
        date_of_instant(local) == self.date
    }
}

/// `chrono::DateTime::from_timestamp` followed by `date_naive`, `year`,
/// `month` and `day`. Claimed of it: an instant within the years 0 to 9999
/// lies on a day that the calendar has, in one of those years.
#[verifier::external_body]
fn date_of_instant(seconds: i64) -> (date: Date)
    requires
        is_writable_instant(seconds as int),
    ensures
        date == civil_date(seconds as int),
        date.wf(),
{
    let day = chrono::DateTime::from_timestamp(seconds, 0).unwrap().date_naive();
    Date {
        year: chrono::Datelike::year(&day),
        month: chrono::Datelike::month(&day),
        day: chrono::Datelike::day(&day),
    }
}

/// The time of a commit that was recorded at `seconds` from
/// 1970-01-01T00:00:00Z by a clock `offset_minutes` ahead of UTC.
///
/// An offset of a day or more counts as no offset. `None` when the instant, or
/// the time that the recording clock showed, lies outside the years 0 to 9999.
pub fn git_time_to_datetime(seconds: i64, offset_minutes: i32) -> (time: Option<CommitTime>)
    ensures
        time is Some <==> is_writable_instant(seconds as int) && is_writable_instant(
            seconds + kept_offset(offset_minutes as int),
        ),
        time matches Some(t) ==> t.wf() && t.date.wf() && t.seconds == seconds
            && t.offset_seconds == kept_offset(offset_minutes as int),
{
    let offset_seconds: i32 = if -1440 < offset_minutes && offset_minutes < 1440 {
        offset_minutes * 60
    } else {
        0
    };
    if seconds < FIRST_SECOND || seconds > LAST_SECOND {
        return None;
    }
    let local: i64 = seconds + offset_seconds as i64;
    if local < FIRST_SECOND || local > LAST_SECOND {
        return None;
    }
    Some(CommitTime { seconds, offset_seconds, date: date_of_instant(local) })
}

} // verus!
