use rust_crash_audit::audit::{
    classify, classify_issue, count_open, count_remaining, group_by_issue, IssueStatus,
};
use rust_crash_audit::git::DeletedCrashTest;
use std::collections::HashSet;

fn deletion(path: &str, issue_number: u64, sha: &str) -> DeletedCrashTest {
    DeletedCrashTest {
        file_path: path.to_string(),
        issue_number,
        commit_sha: sha.to_string(),
        commit_date: "2024-05-15".to_string(),
        pr_number: None,
    }
}

fn open_set(numbers: &[u64]) -> HashSet<u64> {
    numbers.iter().copied().collect()
}

#[test]
fn two_deletions_and_one_remaining_file() {
    let events = vec![
        deletion("tests/crashes/100.rs", 100, "aaaa"),
        deletion("tests/crashes/200-foo.rs", 200, "bbbb"),
    ];
    let open = open_set(&[100]);
    let current = vec!["tests/crashes/200-bar.rs".to_string()];
    let result = classify(events, &open, &current);
    assert_eq!(result.issues.len(), 2);
    assert_eq!(result.issues[0].issue_number, 100);
    assert_eq!(result.issues[0].status, IssueStatus::FullyDeletedOpen);
    assert_eq!(result.issues[0].remaining_count, 0);
    assert_eq!(result.issues[0].deletions.len(), 1);
    assert_eq!(result.issues[0].deletions[0].file_path, "tests/crashes/100.rs");
    assert_eq!(result.issues[1].issue_number, 200);
    assert_eq!(result.issues[1].status, IssueStatus::PartiallyDeleted);
    assert_eq!(result.issues[1].remaining_count, 1);
    assert_eq!(result.issues[1].deletions[0].file_path, "tests/crashes/200-foo.rs");
    assert_eq!(result.files_with_open_issues, 1);
    assert_eq!(result.files_with_closed_issues, 1);
}

#[test]
fn remaining_files_come_before_the_tracker_state() {
    assert_eq!(classify_issue(1, true), IssueStatus::PartiallyDeleted);
    assert_eq!(classify_issue(1, false), IssueStatus::PartiallyDeleted);
    assert_eq!(classify_issue(usize::MAX, true), IssueStatus::PartiallyDeleted);
    assert_eq!(classify_issue(0, true), IssueStatus::FullyDeletedOpen);
    assert_eq!(classify_issue(0, false), IssueStatus::FullyDeletedClosed);
}

#[test]
fn an_open_issue_with_a_remaining_file_is_partial() {
    let events = vec![deletion("tests/crashes/7-a.rs", 7, "aaaa")];
    let open = open_set(&[7]);
    let current = vec!["tests/crashes/7-b.rs".to_string(), "tests/crashes/7.rs".to_string()];
    let result = classify(events, &open, &current);
    assert_eq!(result.issues.len(), 1);
    assert_eq!(result.issues[0].status, IssueStatus::PartiallyDeleted);
    assert_eq!(result.issues[0].remaining_count, 2);
    assert_eq!(result.files_with_open_issues, 1);
    assert_eq!(result.files_with_closed_issues, 0);
}

#[test]
fn groups_ascend_and_keep_the_order_of_their_deletions() {
    let events = vec![
        deletion("c/30-a.rs", 30, "s1"),
        deletion("c/10.rs", 10, "s2"),
        deletion("c/30-b.rs", 30, "s3"),
        deletion("c/20.rs", 20, "s4"),
        deletion("c/30-c.rs", 30, "s5"),
        deletion("c/10-x.rs", 10, "s6"),
    ];
    let groups = group_by_issue(events);
    let numbers: Vec<u64> = groups.iter().map(|g| g.issue_number).collect();
    assert_eq!(numbers, vec![10, 20, 30]);
    let shas: Vec<Vec<&str>> = groups
        .iter()
        .map(|g| g.deletions.iter().map(|d| d.commit_sha.as_str()).collect())
        .collect();
    assert_eq!(shas, vec![vec!["s2", "s6"], vec!["s4"], vec!["s1", "s3", "s5"]]);
}

#[test]
fn every_deletion_stands_in_exactly_one_group() {
    let events = vec![
        deletion("c/3.rs", 3, "s1"),
        deletion("c/1.rs", 1, "s2"),
        deletion("c/3-b.rs", 3, "s3"),
        deletion("c/2.rs", 2, "s4"),
    ];
    let groups = group_by_issue(events.clone());
    let total: usize = groups.iter().map(|g| g.deletions.len()).sum();
    assert_eq!(total, events.len());
    for event in &events {
        let holders = groups
            .iter()
            .filter(|g| g.deletions.iter().any(|d| d.commit_sha == event.commit_sha))
            .count();
        assert_eq!(holders, 1);
    }
    for group in &groups {
        for held in &group.deletions {
            assert_eq!(held.issue_number, group.issue_number);
        }
    }
}

#[test]
fn the_three_statuses_partition_the_issues() {
    let events = vec![
        deletion("c/1.rs", 1, "s1"),
        deletion("c/2.rs", 2, "s2"),
        deletion("c/3-a.rs", 3, "s3"),
        deletion("c/4-a.rs", 4, "s4"),
        deletion("c/1-b.rs", 1, "s5"),
    ];
    let open = open_set(&[1, 3, 99]);
    let current = vec!["c/3-b.rs".to_string(), "c/4-b.rs".to_string(), "c/readme".to_string()];
    let result = classify(events, &open, &current);
    let with = |status: IssueStatus| -> Vec<u64> {
        result.issues.iter().filter(|e| e.status == status).map(|e| e.issue_number).collect()
    };
    assert_eq!(with(IssueStatus::FullyDeletedOpen), vec![1]);
    assert_eq!(with(IssueStatus::FullyDeletedClosed), vec![2]);
    assert_eq!(with(IssueStatus::PartiallyDeleted), vec![3, 4]);
    assert_eq!(result.issues.len(), 4);
    assert_eq!(result.files_with_open_issues, 3);
    assert_eq!(result.files_with_closed_issues, 2);
}

#[test]
fn classifying_twice_gives_the_same_result() {
    let events = vec![
        deletion("c/9.rs", 9, "s1"),
        deletion("c/4.rs", 4, "s2"),
        deletion("c/9-b.rs", 9, "s3"),
        deletion("c/6.rs", 6, "s4"),
    ];
    let open = open_set(&[4, 6]);
    let current = vec!["c/6-left.rs".to_string()];
    let first = classify(events.clone(), &open, &current);
    let second = classify(events, &open, &current);
    assert_eq!(format!("{:?}", first), format!("{:?}", second));
    let numbers: Vec<u64> = first.issues.iter().map(|e| e.issue_number).collect();
    assert_eq!(numbers, vec![4, 6, 9]);
}

#[test]
fn nothing_deleted_means_nothing_classified() {
    let result = classify(Vec::new(), &open_set(&[1, 2]), &vec!["c/1.rs".to_string()]);
    assert!(result.issues.is_empty());
    assert_eq!(result.files_with_open_issues, 0);
    assert_eq!(result.files_with_closed_issues, 0);
}

#[test]
fn remaining_files_are_counted_by_the_number_in_their_name() {
    let current = vec![
        "tests/crashes/5.rs".to_string(),
        "tests/crashes/5-a.rs".to_string(),
        "tests/crashes/50.rs".to_string(),
        "tests/crashes/a-5.rs".to_string(),
        "tests/crashes/05-b.rs".to_string(),
        "notes.txt".to_string(),
    ];
    assert_eq!(count_remaining(&current, 5), 3);
    assert_eq!(count_remaining(&current, 50), 1);
    assert_eq!(count_remaining(&current, 6), 0);
    assert_eq!(count_remaining(&Vec::new(), 5), 0);
}

#[test]
fn open_deletions_are_counted_by_file() {
    let events = vec![
        deletion("c/1.rs", 1, "s1"),
        deletion("c/1-b.rs", 1, "s2"),
        deletion("c/2.rs", 2, "s3"),
    ];
    assert_eq!(count_open(&events, &open_set(&[1])), 2);
    assert_eq!(count_open(&events, &open_set(&[2])), 1);
    assert_eq!(count_open(&events, &open_set(&[])), 0);
    assert_eq!(count_open(&events, &open_set(&[1, 2, 3])), 3);
}
