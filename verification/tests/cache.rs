use rust_crash_audit::cache::{cache_path, format_duration, CachedIssues, Timestamp};
use std::collections::HashSet;
use std::time::Duration;

fn at(secs: i64, nanos: u32) -> Timestamp {
    Timestamp { secs, nanos }
}

#[test]
fn the_record_is_ordered_and_counted() {
    let issues: HashSet<u64> = [30, 10, 20, 5, 1_000_000, 0].into_iter().collect();
    let cached = CachedIssues::from_issues(&issues, at(1_704_067_200, 5));
    assert_eq!(cached.issue_numbers, vec![0, 5, 10, 20, 30, 1_000_000]);
    assert_eq!(cached.issue_count, 6);
    assert_eq!(cached.timestamp, at(1_704_067_200, 5));
}

#[test]
fn the_record_of_no_issues_is_empty() {
    let cached = CachedIssues::from_issues(&HashSet::new(), at(0, 0));
    assert!(cached.issue_numbers.is_empty());
    assert_eq!(cached.issue_count, 0);
}

#[test]
fn the_set_of_a_record_holds_its_numbers() {
    let issues: HashSet<u64> = [7, 3, 9].into_iter().collect();
    let cached = CachedIssues::from_issues(&issues, at(0, 0));
    assert_eq!(cached.to_hashset(), issues);
    let repeated =
        CachedIssues { timestamp: at(0, 0), issue_count: 4, issue_numbers: vec![2, 1, 2, 1] };
    let expected: HashSet<u64> = [1, 2].into_iter().collect();
    assert_eq!(repeated.to_hashset(), expected);
}

#[test]
fn the_age_is_in_whole_seconds() {
    let cached = CachedIssues { timestamp: at(100, 900_000_000), issue_count: 0, issue_numbers: vec![] };
    assert_eq!(cached.age(at(100, 900_000_000)), Duration::from_secs(0));
    assert_eq!(cached.age(at(101, 100_000_000)), Duration::from_secs(0));
    assert_eq!(cached.age(at(101, 900_000_000)), Duration::from_secs(1));
    assert_eq!(cached.age(at(190, 0)), Duration::from_secs(89));
    assert_eq!(cached.age(at(190, 950_000_000)), Duration::from_secs(90));
}

#[test]
fn a_record_from_the_future_has_no_age() {
    let cached = CachedIssues { timestamp: at(100, 5), issue_count: 0, issue_numbers: vec![] };
    assert_eq!(cached.age(at(99, 999_999_999)), Duration::from_secs(0));
    assert_eq!(cached.age(at(100, 4)), Duration::from_secs(0));
    assert_eq!(cached.age(at(i64::MIN, 0)), Duration::from_secs(0));
}

#[test]
fn the_age_can_span_the_whole_range() {
    let cached = CachedIssues { timestamp: at(i64::MIN, 0), issue_count: 0, issue_numbers: vec![] };
    assert_eq!(cached.age(at(i64::MAX, 0)), Duration::from_secs(u64::MAX));
    assert_eq!(cached.age(at(-1, 0)), Duration::from_secs(i64::MAX as u64));
}

#[test]
fn durations_switch_units_at_the_boundaries() {
    assert_eq!(format_duration(Duration::from_secs(0)), "0 seconds");
    assert_eq!(format_duration(Duration::from_secs(59)), "59 seconds");
    assert_eq!(format_duration(Duration::from_secs(60)), "1 minute");
    assert_eq!(format_duration(Duration::from_secs(119)), "1 minute");
    assert_eq!(format_duration(Duration::from_secs(3599)), "59 minutes");
    assert_eq!(format_duration(Duration::from_secs(86399)), "23 hours");
    assert_eq!(format_duration(Duration::from_secs(86400 * 365)), "365 days");
    assert_eq!(format_duration(Duration::from_secs(u64::MAX)), "213503982334601 days");
    assert_eq!(format_duration(Duration::new(59, 999_999_999)), "59 seconds");
}

#[test]
fn the_age_of_a_record_reads_as_words() {
    let cached = CachedIssues { timestamp: at(1_000, 0), issue_count: 0, issue_numbers: vec![] };
    assert_eq!(format_duration(cached.age(at(1_000 + 7_200, 0))), "2 hours");
}

#[test]
fn the_snapshot_has_a_fixed_place() {
    assert_eq!(cache_path(), ".cache/open_issues.json");
}

#[test]
fn pages_are_gathered_into_one_set() {
    let mut pages = rust_crash_audit::github::OpenIssuePages::new();
    assert!(pages.issue_numbers.is_empty());
    assert_eq!(pages.page_count, 0);
    pages.add_page(&vec![3, 1, 2]);
    pages.add_page(&vec![]);
    pages.add_page(&vec![2, 9, 9]);
    let expected: HashSet<u64> = [1, 2, 3, 9].into_iter().collect();
    assert_eq!(pages.issue_numbers, expected);
    assert_eq!(pages.page_count, 3);
}

#[test]
fn the_page_count_stays_at_its_largest_value() {
    let mut pages = rust_crash_audit::github::OpenIssuePages {
        issue_numbers: HashSet::new(),
        page_count: u32::MAX - 1,
    };
    pages.add_page(&vec![1]);
    assert_eq!(pages.page_count, u32::MAX);
    pages.add_page(&vec![2]);
    assert_eq!(pages.page_count, u32::MAX);
    assert_eq!(pages.issue_numbers.len(), 2);
}

#[test]
fn the_kept_snapshot_is_used_unless_a_refresh_is_asked_for() {
    use_source(false, true, rust_crash_audit::cache::SnapshotSource::Cache);
    use_source(false, false, rust_crash_audit::cache::SnapshotSource::Tracker);
    use_source(true, true, rust_crash_audit::cache::SnapshotSource::Tracker);
    use_source(true, false, rust_crash_audit::cache::SnapshotSource::Tracker);
}

fn use_source(refresh: bool, exists: bool, expected: rust_crash_audit::cache::SnapshotSource) {
    assert_eq!(rust_crash_audit::cache::choose_snapshot_source(refresh, exists), expected);
}

#[test]
fn seconds_are_written_in_the_largest_unit_they_fill() {
    use_seconds(1, "1 second");
    use_seconds(61, "1 minute");
    use_seconds(3_600 * 5 + 59 * 60, "5 hours");
    use_seconds(86_400 * 2 - 1, "1 day");
    use_seconds(86_400 * 1000, "1000 days");
}

fn use_seconds(secs: u64, expected: &str) {
    assert_eq!(rust_crash_audit::cache::format_seconds(secs), expected);
    assert_eq!(format_duration(Duration::from_secs(secs)), expected);
}

#[test]
fn the_age_in_seconds_is_the_age() {
    let cached = CachedIssues { timestamp: at(50, 1), issue_count: 0, issue_numbers: vec![] };
    assert_eq!(cached.age_seconds(at(50, 0)), 0);
    assert_eq!(cached.age_seconds(at(60, 0)), 9);
    assert_eq!(cached.age_seconds(at(60, 1)), 10);
    assert_eq!(cached.age(at(60, 1)).as_secs(), cached.age_seconds(at(60, 1)));
}
