use rust_crash_audit::audit::{classify, IssueClassification, IssueStatus};
use rust_crash_audit::git::DeletedCrashTest;
use rust_crash_audit::report::{
    attention_headline, attention_lines, count_with_status, deleted_file_names, display_name,
    issue_url, partial_lines, pull_request_url, push_joined, short_sha, unique_pr_numbers,
};
use std::collections::HashSet;

fn deletion(path: &str, issue_number: u64, pr_number: Option<u64>) -> DeletedCrashTest {
    DeletedCrashTest {
        file_path: path.to_string(),
        issue_number,
        commit_sha: "0123456789abcdef0123456789abcdef01234567".to_string(),
        commit_date: "2024-05-15".to_string(),
        pr_number,
    }
}

#[test]
fn a_path_is_shown_by_its_file_name() {
    assert_eq!(display_name("tests/crashes/100.rs"), "100.rs");
    assert_eq!(display_name("100-foo.rs"), "100-foo.rs");
    assert_eq!(display_name("a/b/"), "b");
    assert_eq!(display_name("a/.."), "a/..");
    assert_eq!(display_name(""), "");
    assert_eq!(display_name("/"), "/");
    assert_eq!(display_name("dir/é.rs"), "é.rs");
}

#[test]
fn a_commit_id_is_cut_to_eight_characters() {
    assert_eq!(short_sha("0123456789abcdef"), "01234567");
    assert_eq!(short_sha("01234567"), "01234567");
    assert_eq!(short_sha("0123"), "0123");
    assert_eq!(short_sha(""), "");
}

#[test]
fn pull_requests_are_named_once_in_order() {
    let deletions = vec![
        deletion("c/1.rs", 1, Some(30)),
        deletion("c/1-a.rs", 1, None),
        deletion("c/1-b.rs", 1, Some(10)),
        deletion("c/1-c.rs", 1, Some(30)),
        deletion("c/1-d.rs", 1, Some(20)),
        deletion("c/1-e.rs", 1, Some(10)),
    ];
    assert_eq!(unique_pr_numbers(&deletions), vec![30, 10, 20]);
    assert_eq!(unique_pr_numbers(&Vec::new()), Vec::<u64>::new());
}

#[test]
fn names_are_joined_with_the_separator_between() {
    let mut out = String::from(">");
    push_joined(&mut out, &vec!["a".to_string(), "b".to_string(), "c".to_string()], ", ");
    assert_eq!(out, ">a, b, c");
    let mut one = String::new();
    push_joined(&mut one, &vec!["only".to_string()], ", ");
    assert_eq!(one, "only");
    let mut none = String::from("x");
    push_joined(&mut none, &Vec::new(), ", ");
    assert_eq!(none, "x");
}

#[test]
fn addresses_end_in_the_number() {
    assert_eq!(issue_url(0), "https://github.com/rust-lang/rust/issues/0");
    assert_eq!(issue_url(147900), "https://github.com/rust-lang/rust/issues/147900");
    assert_eq!(
        pull_request_url(u64::MAX),
        "https://github.com/rust-lang/rust/pull/18446744073709551615"
    );
}

#[test]
fn a_single_deletion_is_shown_with_its_commit() {
    let with_pr = vec![deletion("tests/crashes/100.rs", 100, Some(555))];
    assert_eq!(
        attention_headline(100, &with_pr),
        "  • Issue #100: tests/crashes/100.rs deleted in PR #555 (commit 01234567, 2024-05-15)"
    );
    let without = vec![deletion("tests/crashes/100.rs", 100, None)];
    assert_eq!(
        attention_headline(100, &without),
        "  • Issue #100: tests/crashes/100.rs deleted in commit 01234567 (2024-05-15)"
    );
}

#[test]
fn several_deletions_are_counted_and_named() {
    let deletions = vec![
        deletion("tests/crashes/100.rs", 100, Some(5)),
        deletion("tests/crashes/100-b.rs", 100, None),
        deletion("tests/crashes/100-c.rs", 100, Some(6)),
    ];
    assert_eq!(
        attention_headline(100, &deletions),
        "  • Issue #100: 3 files deleted (100.rs, 100-b.rs, 100-c.rs)"
    );
    assert_eq!(deleted_file_names(&deletions), vec!["100.rs", "100-b.rs", "100-c.rs"]);
}

#[test]
fn the_lines_of_an_issue_that_needs_attention() {
    let entry = IssueClassification {
        issue_number: 100,
        deletions: vec![
            deletion("tests/crashes/100.rs", 100, Some(5)),
            deletion("tests/crashes/100-b.rs", 100, Some(6)),
            deletion("tests/crashes/100-c.rs", 100, Some(5)),
        ],
        remaining_count: 0,
        status: IssueStatus::FullyDeletedOpen,
    };
    assert_eq!(
        attention_lines(&entry),
        vec![
            "  • Issue #100: 3 files deleted (100.rs, 100-b.rs, 100-c.rs)",
            "    Issue: https://github.com/rust-lang/rust/issues/100",
            "    PR: https://github.com/rust-lang/rust/pull/5",
            "    PR: https://github.com/rust-lang/rust/pull/6",
            "",
        ]
    );
}

#[test]
fn the_lines_of_an_issue_without_pull_requests() {
    let entry = IssueClassification {
        issue_number: 9,
        deletions: vec![deletion("tests/crashes/9.rs", 9, None)],
        remaining_count: 0,
        status: IssueStatus::FullyDeletedOpen,
    };
    assert_eq!(
        attention_lines(&entry),
        vec![
            "  • Issue #9: tests/crashes/9.rs deleted in commit 01234567 (2024-05-15)",
            "    Issue: https://github.com/rust-lang/rust/issues/9",
            "",
        ]
    );
}

#[test]
fn the_lines_of_a_partial_deletion() {
    let entry = IssueClassification {
        issue_number: 200,
        deletions: vec![
            deletion("tests/crashes/200-foo.rs", 200, None),
            deletion("tests/crashes/200-baz.rs", 200, Some(1)),
        ],
        remaining_count: 1,
        status: IssueStatus::PartiallyDeleted,
    };
    assert_eq!(
        partial_lines(&entry),
        vec![
            "  • Issue #200: 2 file(s) deleted, 1 remain",
            "    Deleted: 200-foo.rs, 200-baz.rs",
            "    Issue: https://github.com/rust-lang/rust/issues/200",
            "",
        ]
    );
}

#[test]
fn entries_are_counted_by_status() {
    let events = vec![
        deletion("c/1.rs", 1, None),
        deletion("c/2.rs", 2, None),
        deletion("c/3-a.rs", 3, None),
        deletion("c/4.rs", 4, None),
    ];
    let open: HashSet<u64> = [1, 4].into_iter().collect();
    let current = vec!["c/3-b.rs".to_string()];
    let result = classify(events, &open, &current);
    assert_eq!(count_with_status(&result.issues, IssueStatus::FullyDeletedOpen), 2);
    assert_eq!(count_with_status(&result.issues, IssueStatus::FullyDeletedClosed), 1);
    assert_eq!(count_with_status(&result.issues, IssueStatus::PartiallyDeleted), 1);
    assert_eq!(count_with_status(&Vec::new(), IssueStatus::PartiallyDeleted), 0);
}

#[test]
fn the_whole_report_with_every_section() {
    let events = vec![
        deletion("tests/crashes/100.rs", 100, Some(555)),
        deletion("tests/crashes/200-foo.rs", 200, None),
        deletion("tests/crashes/300.rs", 300, None),
    ];
    let open: HashSet<u64> = [100, 200].into_iter().collect();
    let current = vec!["tests/crashes/200-bar.rs".to_string()];
    let result = classify(events, &open, &current);
    let lines = rust_crash_audit::report::report_lines(&result, 4321, "66.7", "33.3");
    assert_eq!(
        lines,
        vec![
            "⚠️  Out-of-sync issues (ALL files deleted but issue still open):",
            "",
            "  • Issue #100: tests/crashes/100.rs deleted in PR #555 (commit 01234567, 2024-05-15)",
            "    Issue: https://github.com/rust-lang/rust/issues/100",
            "    PR: https://github.com/rust-lang/rust/pull/555",
            "",
            "ℹ️  Partial cleanup (some files deleted, others remain):",
            "",
            "  • Issue #200: 1 file(s) deleted, 1 remain",
            "    Deleted: 200-foo.rs",
            "    Issue: https://github.com/rust-lang/rust/issues/200",
            "",
            "─────────────────────────────────────────────────",
            "Statistics:",
            "  Total crash test files deleted: 3",
            "  Files with open issues: 2 (66.7%)",
            "  Files with closed issues: 1 (33.3%)",
            "",
            "  Total open issues in rust-lang/rust: 4321",
            "",
            "  Issues fully cleaned up: 1",
            "  Issues needing attention: 1",
            "  Issues with partial cleanup: 1",
            "─────────────────────────────────────────────────",
            "",
            "⚠️  Found 1 issue(s) that need attention.",
            "",
            "These issues should either:",
            "  1. Be closed (if the issue is actually fixed)",
            "  2. Have tests restored (if removed by mistake)",
        ]
    );
}

#[test]
fn the_report_when_all_is_in_sync() {
    let events = vec![deletion("tests/crashes/300.rs", 300, None)];
    let result = classify(events, &HashSet::new(), &Vec::new());
    let lines = rust_crash_audit::report::report_lines(&result, 0, "0.0", "100.0");
    assert_eq!(
        lines,
        vec![
            "─────────────────────────────────────────────────",
            "Statistics:",
            "  Total crash test files deleted: 1",
            "  Files with open issues: 0 (0.0%)",
            "  Files with closed issues: 1 (100.0%)",
            "",
            "  Total open issues in rust-lang/rust: 0",
            "",
            "  Issues fully cleaned up: 1",
            "  Issues needing attention: 0",
            "─────────────────────────────────────────────────",
            "",
            "✅ All fully deleted crash tests have properly closed issues!",
        ]
    );
}

#[test]
fn file_counts_at_the_limit_are_added_without_loss() {
    let result = rust_crash_audit::audit::Classification {
        issues: Vec::new(),
        files_with_open_issues: usize::MAX,
        files_with_closed_issues: usize::MAX,
    };
    let lines = rust_crash_audit::report::report_lines(&result, usize::MAX, "50.0", "50.0");
    let expected = (usize::MAX as u128) * 2;
    assert_eq!(lines[2], format!("  Total crash test files deleted: {}", expected));
    assert_eq!(lines[6], format!("  Total open issues in rust-lang/rust: {}", usize::MAX));
}
