use rust_crash_audit::dates::{validate_date_range, CalendarDate, ConfigurationError};
use rust_crash_audit::git::{
    deleted_paths, entry_path, files_among, DeltaRecord, ScanStep, TreeItem,
};
use rust_crash_audit::repo::{ChangeKind, EntryKind};
use rust_crash_audit::history::{
    collect_deletions, commit_action, scan_history, CommitRecord, WalkAction,
};

const JAN_1_2024: i64 = 1_704_067_200;
const DAY: i64 = 86_400;

fn day(year: i32, month: u32, day: u32) -> CalendarDate {
    CalendarDate { year, month, day }
}

fn commit(sha: &str, timestamp: i64, message: &str, deleted: &[&str]) -> CommitRecord {
    CommitRecord {
        sha: sha.to_string(),
        timestamp,
        parent_count: 1,
        message: message.to_string(),
        deleted_paths: deleted.iter().map(|p| p.to_string()).collect(),
    }
}

#[test]
fn a_commit_before_the_start_date_ends_the_scan() {
    let history = vec![
        commit("c3", JAN_1_2024 + 31 * DAY, "newest", &["tests/crashes/3.rs"]),
        commit("c2", JAN_1_2024 - DAY, "too old", &["tests/crashes/2.rs"]),
        commit("c1", JAN_1_2024 + 14 * DAY, "older, but dated later", &["tests/crashes/1.rs"]),
    ];
    let events = scan_history(&history, Some(day(2024, 1, 1)), None).unwrap();
    assert_eq!(events.len(), 1);
    assert_eq!(events[0].file_path, "tests/crashes/3.rs");
    assert_eq!(events[0].commit_sha, "c3");
    assert_eq!(events[0].commit_date, "2024-02-01");
}

#[test]
fn a_commit_after_the_end_date_is_passed_over() {
    let history = vec![
        commit("c3", JAN_1_2024 + 182 * DAY, "too new", &["tests/crashes/3.rs"]),
        commit("c2", JAN_1_2024 + 135 * DAY, "in range", &["tests/crashes/2.rs"]),
        commit("c1", JAN_1_2024 + 152 * DAY, "on the last day", &["tests/crashes/1.rs"]),
    ];
    let events = scan_history(&history, None, Some(day(2024, 6, 1))).unwrap();
    assert_eq!(events.len(), 2);
    assert_eq!(events[0].commit_sha, "c2");
    assert_eq!(events[0].commit_date, "2024-05-15");
    assert_eq!(events[1].commit_sha, "c1");
    assert_eq!(events[1].commit_date, "2024-06-01");
}

#[test]
fn both_bounds_are_inclusive() {
    let history = vec![
        commit("c4", JAN_1_2024 + 182 * DAY, "after", &["c/4.rs"]),
        commit("c3", JAN_1_2024 + 152 * DAY + DAY - 1, "last second of the last day", &["c/3.rs"]),
        commit("c2", JAN_1_2024, "first second of the first day", &["c/2.rs"]),
        commit("c1", JAN_1_2024 - 1, "one second before", &["c/1.rs"]),
        commit("c0", JAN_1_2024 + DAY, "behind the stop", &["c/0.rs"]),
    ];
    let events =
        scan_history(&history, Some(day(2024, 1, 1)), Some(day(2024, 6, 1))).unwrap();
    let shas: Vec<&str> = events.iter().map(|e| e.commit_sha.as_str()).collect();
    assert_eq!(shas, vec!["c3", "c2"]);
    assert_eq!(events[0].commit_date, "2024-06-01");
    assert_eq!(events[1].commit_date, "2024-01-01");
}

#[test]
fn a_commit_without_a_parent_is_passed_over() {
    let mut root = commit("root", JAN_1_2024, "initial", &["tests/crashes/1.rs"]);
    root.parent_count = 0;
    let history = vec![commit("tip", JAN_1_2024 + DAY, "tip", &["tests/crashes/2.rs"]), root];
    let events = scan_history(&history, None, None).unwrap();
    assert_eq!(events.len(), 1);
    assert_eq!(events[0].commit_sha, "tip");
}

#[test]
fn each_deleted_path_with_a_number_gives_one_event() {
    let history = vec![commit(
        "abc",
        JAN_1_2024,
        "Auto merge of #77 - a:b, r=c",
        &["tests/crashes/5.rs", "tests/crashes/readme.rs", "tests/crashes/5-b.rs", "tests/crashes/6.rs"],
    )];
    let events = scan_history(&history, None, None).unwrap();
    let found: Vec<(&str, u64)> =
        events.iter().map(|e| (e.file_path.as_str(), e.issue_number)).collect();
    assert_eq!(
        found,
        vec![("tests/crashes/5.rs", 5), ("tests/crashes/5-b.rs", 5), ("tests/crashes/6.rs", 6)]
    );
    for event in &events {
        assert_eq!(event.pr_number, Some(77));
        assert_eq!(event.commit_sha, "abc");
        assert_eq!(event.commit_date, "2024-01-01");
    }
}

#[test]
fn the_date_is_the_utc_day_of_the_timestamp() {
    let history = vec![
        commit("a", 0, "epoch", &["1.rs"]),
        commit("b", -1, "before the epoch", &["2.rs"]),
        commit("c", 951_782_400, "leap day", &["3.rs"]),
        commit("d", 253_402_300_799, "last second of 9999", &["4.rs"]),
    ];
    let events = scan_history(&history, None, None).unwrap();
    let dates: Vec<&str> = events.iter().map(|e| e.commit_date.as_str()).collect();
    assert_eq!(dates, vec!["1970-01-01", "1969-12-31", "2000-02-29", "9999-12-31"]);
}

#[test]
fn a_timestamp_that_is_no_date_fails_the_scan() {
    let history = vec![
        commit("good", JAN_1_2024, "fine", &["1.rs"]),
        commit("bad", i64::MAX, "out of range", &["2.rs"]),
    ];
    let error = scan_history(&history, None, None).unwrap_err();
    assert_eq!(error.step, ScanStep::InvalidTimestamp);
    assert_eq!(error.detail, "bad");
    assert_eq!(error.message(), "Invalid timestamp: bad");
}

#[test]
fn a_bad_timestamp_behind_the_stop_is_never_read() {
    let history = vec![
        commit("old", JAN_1_2024 - DAY, "too old", &["1.rs"]),
        commit("bad", i64::MIN, "out of range", &["2.rs"]),
    ];
    let events = scan_history(&history, Some(day(2024, 1, 1)), None).unwrap();
    assert!(events.is_empty());
}

#[test]
fn an_empty_history_has_no_deletions() {
    assert!(scan_history(&Vec::new(), None, None).unwrap().is_empty());
}

#[test]
fn the_walk_action_follows_the_order_of_the_rules() {
    let from = Some(day(2024, 1, 1));
    let to = Some(day(2024, 6, 1));
    assert_eq!(commit_action(day(2023, 12, 31), from, to, 1), WalkAction::Stop);
    assert_eq!(commit_action(day(2023, 12, 31), from, to, 0), WalkAction::Stop);
    assert_eq!(commit_action(day(2024, 7, 1), from, to, 1), WalkAction::Skip);
    assert_eq!(commit_action(day(2024, 3, 1), from, to, 0), WalkAction::Skip);
    assert_eq!(commit_action(day(2024, 3, 1), from, to, 2), WalkAction::Examine);
    assert_eq!(commit_action(day(2024, 1, 1), from, to, 1), WalkAction::Examine);
    assert_eq!(commit_action(day(2024, 6, 1), from, to, 1), WalkAction::Examine);
    assert_eq!(commit_action(day(1900, 1, 1), None, None, 1), WalkAction::Examine);
    assert_eq!(commit_action(day(2024, 7, 1), Some(day(2025, 1, 1)), to, 1), WalkAction::Stop);
}

#[test]
fn days_are_ordered_by_year_then_month_then_day() {
    assert!(day(2023, 12, 31).is_before(&day(2024, 1, 1)));
    assert!(day(2024, 1, 31).is_before(&day(2024, 2, 1)));
    assert!(day(2024, 2, 1).is_before(&day(2024, 2, 2)));
    assert!(!day(2024, 2, 2).is_before(&day(2024, 2, 2)));
    assert!(!day(2024, 2, 3).is_before(&day(2024, 2, 2)));
    assert!(!day(2024, 1, 1).is_before(&day(2023, 12, 31)));
    assert!(day(-1, 12, 31).is_before(&day(0, 1, 1)));
}

#[test]
fn collected_deletions_are_appended() {
    let mut events = scan_history(
        &vec![commit("first", JAN_1_2024, "m", &["c/1.rs"])],
        None,
        None,
    )
    .unwrap();
    let paths = vec!["c/x.rs".to_string(), "c/2-y.rs".to_string()];
    collect_deletions(&mut events, &paths, "second", "2024-01-02", "no marker, #9");
    assert_eq!(events.len(), 2);
    assert_eq!(events[0].commit_sha, "first");
    assert_eq!(events[1].file_path, "c/2-y.rs");
    assert_eq!(events[1].issue_number, 2);
    assert_eq!(events[1].commit_sha, "second");
    assert_eq!(events[1].commit_date, "2024-01-02");
    assert_eq!(events[1].pr_number, None);
}

#[test]
fn a_start_after_the_end_is_refused() {
    assert_eq!(validate_date_range(None, None), Ok(()));
    assert_eq!(validate_date_range(Some(day(2024, 1, 1)), None), Ok(()));
    assert_eq!(validate_date_range(None, Some(day(2024, 1, 1))), Ok(()));
    assert_eq!(validate_date_range(Some(day(2024, 1, 1)), Some(day(2024, 1, 1))), Ok(()));
    assert_eq!(validate_date_range(Some(day(2024, 1, 1)), Some(day(2024, 6, 1))), Ok(()));
    assert_eq!(
        validate_date_range(Some(day(2024, 6, 1)), Some(day(2024, 1, 1))),
        Err(ConfigurationError::InvertedDateRange)
    );
    assert_eq!(
        validate_date_range(Some(day(2024, 1, 2)), Some(day(2024, 1, 1))),
        Err(ConfigurationError::InvertedDateRange)
    );
}

#[test]
fn only_deletions_with_a_path_are_picked() {
    let delta = |kind: ChangeKind, path: Option<&str>| DeltaRecord {
        kind,
        old_path: path.map(|p| p.to_string()),
    };
    let deltas = vec![
        delta(ChangeKind::Added, Some("c/1.rs")),
        delta(ChangeKind::Deleted, Some("c/2.rs")),
        delta(ChangeKind::Modified, Some("c/3.rs")),
        delta(ChangeKind::Deleted, None),
        delta(ChangeKind::Renamed, Some("c/4.rs")),
        delta(ChangeKind::Deleted, Some("c/name.rs")),
        delta(ChangeKind::Typechange, Some("c/5.rs")),
    ];
    assert_eq!(deleted_paths(&deltas), vec!["c/2.rs", "c/name.rs"]);
    assert_eq!(deleted_paths(&Vec::new()), Vec::<String>::new());
}

#[test]
fn only_files_with_a_name_are_listed() {
    let item = |kind: EntryKind, name: Option<&str>| TreeItem {
        kind,
        name: name.map(|n| n.to_string()),
    };
    let items = vec![
        item(EntryKind::Blob, Some("1.rs")),
        item(EntryKind::Tree, Some("nested")),
        item(EntryKind::Blob, None),
        item(EntryKind::Commit, Some("submodule")),
        item(EntryKind::Blob, Some("2-b.rs")),
        item(EntryKind::Unknown, Some("odd")),
    ];
    assert_eq!(
        files_among("tests/crashes", &items),
        vec!["tests/crashes/1.rs", "tests/crashes/2-b.rs"]
    );
    assert_eq!(files_among("", &items), vec!["/1.rs", "/2-b.rs"]);
    assert_eq!(entry_path("a/b", "c.rs"), "a/b/c.rs");
}
