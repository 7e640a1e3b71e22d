use my_site_generator::date::Date;
use my_site_generator::history::{
    check_walk, commits_for_file, compared_parent, git_time_to_datetime, history_or_empty, Commit,
    CommitTime, Visit,
};

fn commit(hash: &str, seconds: i64) -> Commit {
    Commit {
        hash: hash.to_string(),
        time: git_time_to_datetime(seconds, 0).unwrap(),
        summary: Some(format!("commit {}", hash)),
    }
}

fn visit(hash: &str, seconds: i64, changes: usize) -> Visit {
    Visit { commit: commit(hash, seconds), changes }
}

#[test]
fn untouched_file_has_an_empty_history() {
    let walk = vec![visit("c", 300, 0), visit("b", 200, 0), visit("a", 100, 0)];
    assert_eq!(commits_for_file(walk), vec![]);
    assert_eq!(commits_for_file(vec![]), vec![]);
}

#[test]
fn history_keeps_the_commits_that_changed_the_file_in_walk_order() {
    let walk = vec![
        visit("e", 500, 1),
        visit("d", 400, 0),
        visit("c", 300, 3),
        visit("b", 200, 0),
        visit("a", 100, 1),
    ];
    assert_eq!(commits_for_file(walk), vec![commit("e", 500), commit("c", 300), commit("a", 100)]);
}

#[test]
fn failed_lookup_counts_as_no_history() {
    let failed: Result<Vec<Visit>, String> = Err("corrupt repository".to_string());
    assert_eq!(history_or_empty(failed), vec![]);
    let found: Result<Vec<Visit>, String> = Ok(vec![visit("a", 100, 2), visit("b", 50, 0)]);
    assert_eq!(history_or_empty(found), vec![commit("a", 100)]);
}

#[test]
fn commit_time_keeps_instant_and_offset() {
    assert_eq!(
        git_time_to_datetime(1_704_412_800, 120),
        Some(CommitTime {
            seconds: 1_704_412_800,
            offset_seconds: 7200,
            date: Date { year: 2024, month: 1, day: 5 },
        })
    );
}

#[test]
fn commit_date_is_the_one_on_the_recording_clock() {
    let late = git_time_to_datetime(1_704_412_800 - 3600, 120).unwrap();
    assert_eq!(late.date, Date { year: 2024, month: 1, day: 5 });
    let early = git_time_to_datetime(1_704_412_800 + 3600, -120).unwrap();
    assert_eq!(early.date, Date { year: 2024, month: 1, day: 4 });
    let utc = git_time_to_datetime(1_704_412_800 - 1, 0).unwrap();
    assert_eq!(utc.date, Date { year: 2024, month: 1, day: 4 });
    let epoch = git_time_to_datetime(0, 0).unwrap();
    assert_eq!(epoch.date, Date { year: 1970, month: 1, day: 1 });
}

#[test]
fn offset_of_a_day_or_more_counts_as_none() {
    assert_eq!(git_time_to_datetime(0, 1440).unwrap().offset_seconds, 0);
    assert_eq!(git_time_to_datetime(0, -1440).unwrap().offset_seconds, 0);
    assert_eq!(git_time_to_datetime(0, 100_000).unwrap().offset_seconds, 0);
    assert_eq!(git_time_to_datetime(0, 1439).unwrap().offset_seconds, 86_340);
    assert_eq!(git_time_to_datetime(0, -1439).unwrap().offset_seconds, -86_340);
}

#[test]
fn instants_outside_the_writable_years_are_refused() {
    assert!(git_time_to_datetime(-62_167_219_200, 0).is_some());
    assert!(git_time_to_datetime(-62_167_219_201, 0).is_none());
    assert!(git_time_to_datetime(253_402_300_799, 0).is_some());
    assert!(git_time_to_datetime(253_402_300_800, 0).is_none());
    assert!(git_time_to_datetime(253_402_300_799, 1).is_none());
    assert!(git_time_to_datetime(-62_167_219_200, -1).is_none());
    assert!(git_time_to_datetime(i64::MAX, 0).is_none());
    assert!(git_time_to_datetime(i64::MIN, 0).is_none());
    assert_eq!(
        git_time_to_datetime(-62_167_219_200, 0).unwrap().date,
        Date { year: 0, month: 1, day: 1 }
    );
    assert_eq!(
        git_time_to_datetime(253_402_300_799, 0).unwrap().date,
        Date { year: 9999, month: 12, day: 31 }
    );
}

#[test]
fn commit_times_can_be_checked() {
    let day = Date { year: 2024, month: 1, day: 5 };
    assert!(git_time_to_datetime(1_704_412_800, 120).unwrap().check());
    assert!(!CommitTime { seconds: 0, offset_seconds: 0, date: day }.check());
    let epoch = Date { year: 1970, month: 1, day: 1 };
    assert!(CommitTime { seconds: 0, offset_seconds: 0, date: epoch }.check());
    assert!(CommitTime { seconds: -1, offset_seconds: 1, date: epoch }.check());
    assert!(!CommitTime { seconds: -1, offset_seconds: 0, date: epoch }.check());
    assert!(!CommitTime { seconds: 253_402_300_800, offset_seconds: 0, date: day }.check());
    assert!(!CommitTime { seconds: 253_402_300_799, offset_seconds: 1, date: day }.check());
    assert!(!CommitTime { seconds: i64::MAX, offset_seconds: i32::MAX, date: day }.check());
    assert!(!CommitTime { seconds: i64::MIN, offset_seconds: i32::MIN, date: day }.check());
    let no_day = Date { year: 2024, month: 2, day: 30 };
    assert!(!CommitTime { seconds: 0, offset_seconds: 0, date: no_day }.check());
}

#[test]
fn commit_is_compared_with_its_first_parent() {
    assert_eq!(compared_parent(0), None);
    assert_eq!(compared_parent(1), Some(0));
    assert_eq!(compared_parent(2), Some(0));
    assert_eq!(compared_parent(usize::MAX), Some(0));
}

#[test]
fn walk_is_checked_commit_by_commit() {
    assert!(check_walk(&vec![]));
    assert!(check_walk(&vec![visit("a", 100, 0), visit("b", 50, 1)]));
    let mut broken = visit("c", 10, 1);
    broken.commit.time.seconds = i64::MAX;
    assert!(!check_walk(&vec![visit("a", 100, 0), broken]));
}
