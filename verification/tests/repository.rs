use git2::{Oid, Repository, Signature, Time};
use rust_crash_audit::audit::{classify, IssueStatus};
use rust_crash_audit::dates::CalendarDate;
use rust_crash_audit::git::{get_current_crash_test_files, scan_deleted_crash_tests, ScanStep};
use std::collections::HashSet;

const PATHSPEC: &str = "tests/crashes/*.rs";
const JAN_1_2024: i64 = 1_704_067_200;
const DAY: i64 = 86_400;

fn day(year: i32, month: u32, day: u32) -> CalendarDate {
    CalendarDate { year, month, day }
}

fn fresh_repository(name: &str) -> (Repository, String) {
    let path = format!("/tmp/rust_crash_audit_tests/{}", name);
    let repo = Repository::init_bare(&path).unwrap();
    (repo, path)
}

fn tree_with(repo: &Repository, names: &[&str]) -> Oid {
    let blob = repo.blob(b"fn main() {}\n").unwrap();
    let mut crashes = repo.treebuilder(None).unwrap();
    crashes.insert("README.md", blob, 0o100644).unwrap();
    for name in names {
        crashes.insert(name, blob, 0o100644).unwrap();
    }
    let crashes_id = crashes.write().unwrap();
    let mut tests = repo.treebuilder(None).unwrap();
    tests.insert("crashes", crashes_id, 0o040000).unwrap();
    let tests_id = tests.write().unwrap();
    let mut root = repo.treebuilder(None).unwrap();
    root.insert("tests", tests_id, 0o040000).unwrap();
    root.insert("Cargo.toml", blob, 0o100644).unwrap();
    root.write().unwrap()
}

fn commit(repo: &Repository, names: &[&str], parents: &[Oid], secs: i64, message: &str) -> Oid {
    let tree = repo.find_tree(tree_with(repo, names)).unwrap();
    let author = Signature::new("Author", "author@example.com", &Time::new(secs, 0)).unwrap();
    let parents: Vec<git2::Commit> =
        parents.iter().map(|id| repo.find_commit(*id).unwrap()).collect();
    let parents: Vec<&git2::Commit> = parents.iter().collect();
    repo.commit(None, &author, &author, message, &tree, &parents).unwrap()
}

fn point_head_at(repo: &Repository, tip: Oid) {
    repo.reference("refs/heads/audited", tip, true, "tip").unwrap();
    repo.set_head("refs/heads/audited").unwrap();
}

#[test]
fn deletions_are_found_newest_first() {
    let (repo, path) = fresh_repository("newest_first");
    let c0 = commit(&repo, &["100.rs", "200-foo.rs", "200-bar.rs"], &[], JAN_1_2024, "start");
    let c1 = commit(
        &repo,
        &["200-foo.rs", "200-bar.rs"],
        &[c0],
        JAN_1_2024 + DAY,
        "Auto merge of #555 - fix:branch, r=someone",
    );
    let c2 = commit(&repo, &["200-bar.rs"], &[c1], JAN_1_2024 + 2 * DAY, "remove by hand");
    point_head_at(&repo, c2);

    let events = scan_deleted_crash_tests(&path, PATHSPEC, None, None).unwrap();
    assert_eq!(events.len(), 2);
    assert_eq!(events[0].file_path, "tests/crashes/200-foo.rs");
    assert_eq!(events[0].issue_number, 200);
    assert_eq!(events[0].commit_sha, c2.to_string());
    assert_eq!(events[0].commit_date, "2024-01-03");
    assert_eq!(events[0].pr_number, None);
    assert_eq!(events[1].file_path, "tests/crashes/100.rs");
    assert_eq!(events[1].issue_number, 100);
    assert_eq!(events[1].commit_sha, c1.to_string());
    assert_eq!(events[1].commit_date, "2024-01-02");
    assert_eq!(events[1].pr_number, Some(555));
}

#[test]
fn open_issue_is_flagged_and_half_deleted_issue_is_partial() {
    let (repo, path) = fresh_repository("end_to_end");
    let c0 = commit(&repo, &["100.rs", "200-foo.rs", "200-bar.rs"], &[], JAN_1_2024, "start");
    let c1 = commit(&repo, &["200-foo.rs", "200-bar.rs"], &[c0], JAN_1_2024 + DAY, "one");
    let c2 = commit(&repo, &["200-bar.rs"], &[c1], JAN_1_2024 + 2 * DAY, "two");
    point_head_at(&repo, c2);

    let events = scan_deleted_crash_tests(&path, PATHSPEC, None, None).unwrap();
    let current = get_current_crash_test_files(&path, "tests/crashes").unwrap();
    assert_eq!(current, vec!["tests/crashes/200-bar.rs", "tests/crashes/README.md"]);
    let open: HashSet<u64> = [100].into_iter().collect();
    let result = classify(events, &open, &current);
    assert_eq!(result.issues.len(), 2);
    assert_eq!(result.issues[0].issue_number, 100);
    assert_eq!(result.issues[0].status, IssueStatus::FullyDeletedOpen);
    assert_eq!(result.issues[0].remaining_count, 0);
    assert_eq!(result.issues[1].issue_number, 200);
    assert_eq!(result.issues[1].status, IssueStatus::PartiallyDeleted);
    assert_eq!(result.issues[1].remaining_count, 1);
}

#[test]
fn walk_ends_at_the_first_commit_before_the_start_date() {
    let (repo, path) = fresh_repository("stops");
    let c0 = commit(&repo, &["1.rs", "2.rs", "3.rs"], &[], JAN_1_2024 - 30 * DAY, "start");
    let c1 = commit(&repo, &["2.rs", "3.rs"], &[c0], JAN_1_2024 + 14 * DAY, "dated later");
    let c2 = commit(&repo, &["3.rs"], &[c1], JAN_1_2024 - DAY, "dated 2023-12-31");
    let c3 = commit(&repo, &[], &[c2], JAN_1_2024 + 31 * DAY, "newest");
    point_head_at(&repo, c3);

    let events = scan_deleted_crash_tests(&path, PATHSPEC, Some(day(2024, 1, 1)), None).unwrap();
    assert_eq!(events.len(), 1);
    assert_eq!(events[0].file_path, "tests/crashes/3.rs");
    assert_eq!(events[0].commit_sha, c3.to_string());
    assert_eq!(events[0].commit_date, "2024-02-01");
}

#[test]
fn commits_after_the_end_date_are_passed_over() {
    let (repo, path) = fresh_repository("skips");
    let c0 = commit(&repo, &["1.rs", "2.rs"], &[], JAN_1_2024, "start");
    let c1 = commit(&repo, &["2.rs"], &[c0], JAN_1_2024 + 135 * DAY, "dated 2024-05-15");
    let c2 = commit(&repo, &[], &[c1], JAN_1_2024 + 182 * DAY, "dated 2024-07-01");
    point_head_at(&repo, c2);

    let events = scan_deleted_crash_tests(&path, PATHSPEC, None, Some(day(2024, 6, 1))).unwrap();
    assert_eq!(events.len(), 1);
    assert_eq!(events[0].file_path, "tests/crashes/1.rs");
    assert_eq!(events[0].commit_sha, c1.to_string());
    assert_eq!(events[0].commit_date, "2024-05-15");
}

#[test]
fn only_the_first_parent_chain_is_walked() {
    let (repo, path) = fresh_repository("first_parent");
    let c0 = commit(&repo, &["1.rs", "2.rs"], &[], JAN_1_2024, "start");
    let side = commit(&repo, &["2.rs"], &[c0], JAN_1_2024 + DAY, "side branch deletes 1");
    let main = commit(&repo, &["1.rs", "2.rs"], &[c0], JAN_1_2024 + 2 * DAY, "main goes on");
    let merge = commit(&repo, &["2.rs"], &[main, side], JAN_1_2024 + 3 * DAY, "merge");
    point_head_at(&repo, merge);

    let events = scan_deleted_crash_tests(&path, PATHSPEC, None, None).unwrap();
    assert_eq!(events.len(), 1);
    assert_eq!(events[0].file_path, "tests/crashes/1.rs");
    assert_eq!(events[0].commit_sha, merge.to_string());
}

#[test]
fn files_outside_the_pattern_or_without_a_number_leave_no_event() {
    let (repo, path) = fresh_repository("pattern");
    let c0 = commit(&repo, &["1.rs", "2.txt", "name.rs"], &[], JAN_1_2024, "start");
    let c1 = commit(&repo, &[], &[c0], JAN_1_2024 + DAY, "remove all");
    point_head_at(&repo, c1);

    let events = scan_deleted_crash_tests(&path, PATHSPEC, None, None).unwrap();
    assert_eq!(events.len(), 1);
    assert_eq!(events[0].file_path, "tests/crashes/1.rs");
    let all = scan_deleted_crash_tests(&path, "tests/crashes/*", None, None).unwrap();
    let paths: Vec<&str> = all.iter().map(|e| e.file_path.as_str()).collect();
    assert_eq!(paths, vec!["tests/crashes/1.rs", "tests/crashes/2.txt"]);
}

#[test]
fn a_path_that_is_no_repository_is_an_error() {
    let error = scan_deleted_crash_tests("/tmp/rust_crash_audit_tests/none/at/all", PATHSPEC, None, None)
        .unwrap_err();
    assert_eq!(error.step, ScanStep::OpenRepository);
    assert!(error.message().starts_with("Failed to open git repository: "));
    let error = get_current_crash_test_files("/tmp/rust_crash_audit_tests/none/at/all", "tests/crashes")
        .unwrap_err();
    assert_eq!(error.step, ScanStep::OpenRepository);
}

#[test]
fn a_pattern_with_a_nul_is_refused() {
    let error = scan_deleted_crash_tests("/tmp", "tests/\0crashes", None, None).unwrap_err();
    assert_eq!(error.step, ScanStep::Pathspec);
}

#[test]
fn a_missing_directory_is_an_error() {
    let (repo, path) = fresh_repository("no_directory");
    let c0 = commit(&repo, &["1.rs"], &[], JAN_1_2024, "start");
    point_head_at(&repo, c0);
    let error = get_current_crash_test_files(&path, "tests/elsewhere").unwrap_err();
    assert_eq!(error.step, ScanStep::Directory);
    let files = get_current_crash_test_files(&path, "tests/crashes").unwrap();
    assert_eq!(files, vec!["tests/crashes/1.rs", "tests/crashes/README.md"]);
}

#[test]
fn a_repository_without_commits_has_no_head_to_walk_from() {
    let (_repo, path) = fresh_repository("unborn");
    let error = scan_deleted_crash_tests(&path, PATHSPEC, None, None).unwrap_err();
    assert_eq!(error.step, ScanStep::PushHead);
    assert!(error.message().starts_with("Failed to push HEAD: "));
    let error = get_current_crash_test_files(&path, "tests/crashes").unwrap_err();
    assert_eq!(error.step, ScanStep::Head);
    assert!(error.message().starts_with("Failed to resolve HEAD: "));
}

#[test]
fn a_single_commit_has_nothing_to_compare_with() {
    let (repo, path) = fresh_repository("single");
    let c0 = commit(&repo, &["1.rs"], &[], JAN_1_2024, "start");
    point_head_at(&repo, c0);
    let events = scan_deleted_crash_tests(&path, PATHSPEC, None, None).unwrap();
    assert!(events.is_empty());
}

#[test]
fn every_failure_is_named_with_its_cause() {
    let steps = [
        (ScanStep::Pathspec, "Invalid path pattern"),
        (ScanStep::OpenRepository, "Failed to open git repository"),
        (ScanStep::CreateRevwalk, "Failed to create revwalk"),
        (ScanStep::SimplifyFirstParent, "Failed to simplify to first parent"),
        (ScanStep::PushHead, "Failed to push HEAD"),
        (ScanStep::NextCommit, "Failed to get commit OID"),
        (ScanStep::FindCommit, "Failed to find commit"),
        (ScanStep::InvalidTimestamp, "Invalid timestamp"),
        (ScanStep::ParentCommit, "Failed to get parent commit"),
        (ScanStep::CommitTree, "Failed to get commit tree"),
        (ScanStep::ParentTree, "Failed to get parent tree"),
        (ScanStep::Diff, "Failed to create diff"),
        (ScanStep::Head, "Failed to resolve HEAD"),
        (ScanStep::HeadTree, "Failed to get HEAD tree"),
        (ScanStep::Directory, "Failed to read directory"),
    ];
    for (step, text) in steps {
        let error = rust_crash_audit::git::RepositoryError { step, detail: "cause".to_string() };
        assert_eq!(error.message(), format!("{}: cause", text));
    }
}
