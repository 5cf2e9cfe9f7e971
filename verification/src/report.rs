//! The lines of the report that depend on what the audit found.

use vstd::prelude::*;
use vstd::string::{StringExecFns, StrSliceExecFns};
use crate::text::{chars_of, decimal_text, push_decimal};
use crate::paths::{file_name_of, file_name_range};
use crate::git::{DeletedCrashTest, DeletionView, deletion_views, text_views};
use crate::audit::{Classification, IssueClassification, IssueStatus, lemma_filter_push};

verus! {

/// The name under which a path is shown: its file name, or all of it where
/// it names no file.
pub open spec fn display_name_of(path: Seq<char>) -> Seq<char> {
    match file_name_of(path) {
        Some(name) => name,
        None => path,
    }
}

/// The first eight characters of a commit id, or all of a shorter one.
pub open spec fn short_sha_of(sha: Seq<char>) -> Seq<char> {
    if sha.len() >= 8 {
        sha.subrange(0, 8)
    } else {
        sha
    }
}

/// The pull request numbers that `events` name, each once, in the order in
/// which they first occur.
pub open spec fn pr_numbers_of(events: Seq<DeletionView>) -> Seq<u64>
    decreases events.len(),
{
    if events.len() == 0 {
        Seq::empty()
    } else {
        let rest = pr_numbers_of(events.drop_last());
        match events.last().pr_number {
            Some(number) => if rest.contains(number) {
                rest
            } else {
                rest.push(number)
            },
            None => rest,
        }
    }
}

/// The display names of the paths of `events`.
pub open spec fn display_names(events: Seq<DeletionView>) -> Seq<Seq<char>> {
    Seq::new(events.len(), |i: int| display_name_of(events[i].file_path))
}

/// `items` in a row with `separator` between each two.
pub open spec fn joined(items: Seq<Seq<char>>, separator: Seq<char>) -> Seq<char>
    decreases items.len(),
{
    if items.len() == 0 {
        Seq::empty()
    } else if items.len() == 1 {
        items[0]
    } else {
        joined(items.drop_last(), separator) + separator + items.last()
    }
}

/// The address of the issue `number` in the tracker.
pub open spec fn issue_url_of(number: u64) -> Seq<char> {
    "https://github.com/rust-lang/rust/issues/"@ + decimal_text(number as nat)
}

/// The address of the pull request `number`.
pub open spec fn pull_request_url_of(number: u64) -> Seq<char> {
    "https://github.com/rust-lang/rust/pull/"@ + decimal_text(number as nat)
}

/// The first line for an issue whose tests are all gone: a single deletion
/// is shown with its path, its pull request if it has one, its commit and
/// its date; several are counted and named.
pub open spec fn attention_headline_of(issue: u64, events: Seq<DeletionView>) -> Seq<char> {
    let start = "  • Issue #"@ + decimal_text(issue as nat) + ": "@;
    if events.len() == 1 {
        let event = events[0];
        match event.pr_number {
            Some(pr) => start + event.file_path + " deleted in PR #"@ + decimal_text(pr as nat)
                + " (commit "@ + short_sha_of(event.commit_sha) + ", "@ + event.commit_date
                + ")"@,
            None => start + event.file_path + " deleted in commit "@ + short_sha_of(
                event.commit_sha,
            ) + " ("@ + event.commit_date + ")"@,
        }
    } else {
        start + decimal_text(events.len()) + " files deleted ("@ + joined(
            display_names(events),
            ", "@,
        ) + ")"@
    }
}

/// The first line for an issue of which some tests remain.
pub open spec fn partial_headline_of(issue: u64, deleted: nat, remaining: nat) -> Seq<char> {
    "  • Issue #"@ + decimal_text(issue as nat) + ": "@ + decimal_text(deleted)
        + " file(s) deleted, "@ + decimal_text(remaining) + " remain"@
}

/// The line that links to the issue.
pub open spec fn issue_line_of(issue: u64) -> Seq<char> {
    "    Issue: "@ + issue_url_of(issue)
}

/// The line that links to a pull request.
pub open spec fn pull_request_line_of(number: u64) -> Seq<char> {
    "    PR: "@ + pull_request_url_of(number)
}

/// The line that names the deleted files.
pub open spec fn deleted_line_of(events: Seq<DeletionView>) -> Seq<char> {
    "    Deleted: "@ + joined(display_names(events), ", "@)
}

/// The lines that link to the pull requests `numbers`.
pub open spec fn pull_request_lines_of(numbers: Seq<u64>) -> Seq<Seq<char>> {
    Seq::new(numbers.len(), |i: int| pull_request_line_of(numbers[i]))
}

/// The lines for an issue whose tests are all gone while it is open: the
/// headline, the link to the issue, a link for each pull request, and an
/// empty line.
pub open spec fn attention_lines_of(issue: u64, events: Seq<DeletionView>) -> Seq<Seq<char>> {
    seq![attention_headline_of(issue, events), issue_line_of(issue)] + pull_request_lines_of(
        pr_numbers_of(events),
    ) + seq![Seq::<char>::empty()]
}

/// The lines for an issue of which some tests remain: the headline, the
/// deleted files, the link to the issue, and an empty line.
pub open spec fn partial_lines_of(issue: u64, events: Seq<DeletionView>, remaining: nat) -> Seq<
    Seq<char>,
> {
    seq![
        partial_headline_of(issue, events.len(), remaining),
        deleted_line_of(events),
        issue_line_of(issue),
        Seq::<char>::empty(),
    ]
}

/// The predicate that holds of the entries with the status `status`.
pub open spec fn has_status(status: IssueStatus) -> spec_fn(IssueClassification) -> bool {
    |entry: IssueClassification| entry.status == status
}

/// The name under which `path` is shown.
pub fn display_name(path: &str) -> (name: String)
    ensures
        name@ == display_name_of(path@),
{
    let v = chars_of(path);
    match file_name_range(&v) {
        Some((start, end)) => path.substring_char(start, end).to_owned(),
        None => path.to_owned(),
    }
}

/// The short form of a commit id.
pub fn short_sha(sha: &str) -> (short: String)
    ensures
        short@ == short_sha_of(sha@),
{
    if sha.unicode_len() >= 8 {
        sha.substring_char(0, 8).to_owned()
    } else {
        sha.to_owned()
    }
}

/// Whether `numbers` holds `number`.
fn holds(numbers: &Vec<u64>, number: u64) -> (b: bool)
    ensures
        b == numbers@.contains(number),
{
    let mut i: usize = 0;
    while i < numbers.len()
        invariant
            i <= numbers.len(),
            forall|j: int| 0 <= j < i ==> numbers@[j] != number,
        decreases numbers.len() - i,
    {
        if numbers[i] == number {
            return true;
        }
        i = i + 1;
    }
    false
}

/// The pull request numbers that `deletions` name, each once, in the order
/// in which they first occur.
pub fn unique_pr_numbers(deletions: &Vec<DeletedCrashTest>) -> (numbers: Vec<u64>)
    ensures
        numbers@ == pr_numbers_of(deletion_views(deletions@)),
{
    let ghost all = deletion_views(deletions@);
    let mut numbers: Vec<u64> = Vec::new();
    let mut i: usize = 0;
    proof {
        assert(all.take(0) =~= Seq::<DeletionView>::empty());
    }
    while i < deletions.len()
        invariant
            i <= deletions.len(),
            all == deletion_views(deletions@),
            numbers@ == pr_numbers_of(all.take(i as int)),
        decreases deletions.len() - i,
    {
        proof {
            assert(all.take(i + 1).drop_last() =~= all.take(i as int));
            assert(all.take(i + 1).last() == deletions@[i as int]@);
        }
        match deletions[i].pr_number {
            Some(number) => {
                if !holds(&numbers, number) {
                    numbers.push(number);
                }
            },
            None => {},
        }
        i = i + 1;
    }
    proof {
        assert(all.take(all.len() as int) =~= all);
    }
    numbers
}

/// The display names of the files of `deletions`, in their order.
pub fn deleted_file_names(deletions: &Vec<DeletedCrashTest>) -> (names: Vec<String>)
    ensures
        text_views(names@) == display_names(deletion_views(deletions@)),
{
    let mut names: Vec<String> = Vec::new();
    let mut i: usize = 0;
    while i < deletions.len()
        invariant
            i <= deletions.len(),
            names@.len() == i,
            forall|j: int|
                0 <= j < i ==> (#[trigger] names@[j])@ == display_name_of(
                    deletions@[j].file_path@,
                ),
        decreases deletions.len() - i,
    {
        names.push(display_name(deletions[i].file_path.as_str()));
        i = i + 1;
    }
    proof {
        assert(text_views(names@) =~= display_names(deletion_views(deletions@)));
    }
    names
}

/// Appends `items` to `out` with `separator` between each two.
pub fn push_joined(out: &mut String, items: &Vec<String>, separator: &str)
    ensures
        final(out)@ == old(out)@ + joined(text_views(items@), separator@),
{
    let ghost all = text_views(items@);
    let ghost before = out@;
    let mut i: usize = 0;
    proof {
        assert(all.take(0) =~= Seq::<Seq<char>>::empty());
        assert(before + Seq::<char>::empty() =~= before);
    }
    while i < items.len()
        invariant
            i <= items.len(),
            all == text_views(items@),
            out@ == before + joined(all.take(i as int), separator@),
        decreases items.len() - i,
    {
        let ghost so_far = joined(all.take(i as int), separator@);
        proof {
            assert(all.take(i + 1).drop_last() =~= all.take(i as int));
            assert(all.take(i + 1).last() == items@[i as int]@);
            assert(all.take(i + 1)[0] == all[0]);
        }
        if i > 0 {
            out.append(separator);
        }
        out.append(items[i].as_str());
        proof {
            if i == 0 {
                assert(so_far =~= Seq::<char>::empty());
                assert(out@ =~= before + items@[0]@);
            } else {
                assert(out@ =~= before + (so_far + separator@ + items@[i as int]@));
            }
        }
        i = i + 1;
    }
    proof {
        assert(all.take(all.len() as int) =~= all);
    }
}

/// The address of the issue `number` in the tracker.
pub fn issue_url(number: u64) -> (url: String)
    ensures
        url@ == issue_url_of(number),
{
    let mut url = "https://github.com/rust-lang/rust/issues/".to_owned();
    push_decimal(&mut url, number as u128);
    url
}

/// The address of the pull request `number`.
pub fn pull_request_url(number: u64) -> (url: String)
    ensures
        url@ == pull_request_url_of(number),
{
    let mut url = "https://github.com/rust-lang/rust/pull/".to_owned();
    push_decimal(&mut url, number as u128);
    url
}

/// The line that links to the issue.
fn issue_line(issue: u64) -> (line: String)
    ensures
        line@ == issue_line_of(issue),
{
    let mut line = "    Issue: ".to_owned();
    line.append(issue_url(issue).as_str());
    line
}

/// The line that links to a pull request.
fn pull_request_line(number: u64) -> (line: String)
    ensures
        line@ == pull_request_line_of(number),
{
    let mut line = "    PR: ".to_owned();
    line.append(pull_request_url(number).as_str());
    line
}

/// The first line for an issue whose tests are all gone.
pub fn attention_headline(issue: u64, deletions: &Vec<DeletedCrashTest>) -> (line: String)
    ensures
        line@ == attention_headline_of(issue, deletion_views(deletions@)),
{
    let ghost events = deletion_views(deletions@);
    let mut line = "  • Issue #".to_owned();
    push_decimal(&mut line, issue as u128);
    line.append(": ");
    let ghost start = line@;
    assert(start =~= "  • Issue #"@ + decimal_text(issue as nat) + ": "@);
    if deletions.len() == 1 {
        let event = &deletions[0];
        assert(events[0] == event@);
        line.append(event.file_path.as_str());
        match event.pr_number {
            Some(pr) => {
                line.append(" deleted in PR #");
                push_decimal(&mut line, pr as u128);
                line.append(" (commit ");
                line.append(short_sha(event.commit_sha.as_str()).as_str());
                line.append(", ");
                line.append(event.commit_date.as_str());
                line.append(")");
                assert(line@ =~= attention_headline_of(issue, events));
            },
            None => {
                line.append(" deleted in commit ");
                line.append(short_sha(event.commit_sha.as_str()).as_str());
                line.append(" (");
                line.append(event.commit_date.as_str());
                line.append(")");
                assert(line@ =~= attention_headline_of(issue, events));
            },
        }
    } else {
        let names = deleted_file_names(deletions);
        push_decimal(&mut line, deletions.len() as u128);
        line.append(" files deleted (");
        push_joined(&mut line, &names, ", ");
        line.append(")");
        assert(line@ =~= attention_headline_of(issue, events));
    }
    line
}

/// The lines for an issue whose tests are all gone while it is open.
pub fn attention_lines(entry: &IssueClassification) -> (lines: Vec<String>)
    ensures
        text_views(lines@) == attention_lines_of(
            entry.issue_number,
            deletion_views(entry.deletions@),
        ),
{
    let ghost events = deletion_views(entry.deletions@);
    let mut lines: Vec<String> = Vec::new();
    lines.push(attention_headline(entry.issue_number, &entry.deletions));
    lines.push(issue_line(entry.issue_number));
    let numbers = unique_pr_numbers(&entry.deletions);
    let ghost head = seq![
        attention_headline_of(entry.issue_number, events),
        issue_line_of(entry.issue_number),
    ];
    assert(text_views(lines@) =~= head);
    let mut i: usize = 0;
    while i < numbers.len()
        invariant
            i <= numbers.len(),
            text_views(lines@) == head + pull_request_lines_of(numbers@.take(i as int)),
        decreases numbers.len() - i,
    {
        let ghost old_lines = lines@;
        let line = pull_request_line(numbers[i]);
        lines.push(line);
        proof {
            assert(text_views(lines@) =~= text_views(old_lines).push(line@));
            assert(pull_request_lines_of(numbers@.take(i + 1)) =~= pull_request_lines_of(
                numbers@.take(i as int),
            ).push(line@));
        }
        i = i + 1;
    }
    let ghost old_lines = lines@;
    lines.push(String::new());
    proof {
        assert(numbers@.take(numbers@.len() as int) =~= numbers@);
        assert(text_views(lines@) =~= text_views(old_lines).push(Seq::<char>::empty()));
        assert(text_views(lines@) =~= attention_lines_of(entry.issue_number, events));
    }
    lines
}

/// The lines for an issue of which some tests remain.
pub fn partial_lines(entry: &IssueClassification) -> (lines: Vec<String>)
    ensures
        text_views(lines@) == partial_lines_of(
            entry.issue_number,
            deletion_views(entry.deletions@),
            entry.remaining_count as nat,
        ),
{
    let ghost events = deletion_views(entry.deletions@);
    let mut headline = "  • Issue #".to_owned();
    push_decimal(&mut headline, entry.issue_number as u128);
    headline.append(": ");
    push_decimal(&mut headline, entry.deletions.len() as u128);
    headline.append(" file(s) deleted, ");
    push_decimal(&mut headline, entry.remaining_count as u128);
    headline.append(" remain");
    assert(headline@ =~= partial_headline_of(
        entry.issue_number,
        events.len(),
        entry.remaining_count as nat,
    ));
    let names = deleted_file_names(&entry.deletions);
    let mut deleted = "    Deleted: ".to_owned();
    push_joined(&mut deleted, &names, ", ");
    let mut lines: Vec<String> = Vec::new();
    lines.push(headline);
    lines.push(deleted);
    lines.push(issue_line(entry.issue_number));
    lines.push(String::new());
    assert(text_views(lines@) =~= partial_lines_of(
        entry.issue_number,
        events,
        entry.remaining_count as nat,
    ));
    lines
}

/// How many entries of `issues` have the status `status`.
pub fn count_with_status(issues: &Vec<IssueClassification>, status: IssueStatus) -> (n: usize)
    ensures
        n == issues@.filter(has_status(status)).len(),
{
    let mut n: usize = 0;
    let mut i: usize = 0;
    while i < issues.len()
        invariant
            i <= issues.len(),
            n <= i,
            n == issues@.take(i as int).filter(has_status(status)).len(),
        decreases issues.len() - i,
    {
        proof {
            lemma_filter_push(
                issues@.take(i as int),
                issues@[i as int],
                has_status(status),
            );
            assert(issues@.take(i + 1) =~= issues@.take(i as int).push(issues@[i as int]));
        }
        if issues[i].status == status {
            n = n + 1;
        }
        i = i + 1;
    }
    proof {
        assert(issues@.take(issues@.len() as int) =~= issues@);
    }
    n
}

/// The lines that the report holds for `entry`: those of an issue that
/// needs attention, those of a partial deletion, or none for an issue that
/// is in sync.
pub open spec fn lines_for(entry: IssueClassification) -> Seq<Seq<char>> {
    match entry.status {
        IssueStatus::FullyDeletedOpen => attention_lines_of(
            entry.issue_number,
            deletion_views(entry.deletions@),
        ),
        IssueStatus::PartiallyDeleted => partial_lines_of(
            entry.issue_number,
            deletion_views(entry.deletions@),
            entry.remaining_count as nat,
        ),
        IssueStatus::FullyDeletedClosed => Seq::empty(),
    }
}

/// The lines of the entries of `issues` that have the status `status`, in
/// their order.
pub open spec fn blocks_of(issues: Seq<IssueClassification>, status: IssueStatus) -> Seq<
    Seq<char>,
>
    decreases issues.len(),
{
    if issues.len() == 0 {
        Seq::empty()
    } else {
        blocks_of(issues.drop_last(), status) + if issues.last().status == status {
            lines_for(issues.last())
        } else {
            Seq::<Seq<char>>::empty()
        }
    }
}

/// A section of the report: nothing where no entry has the status, else the
/// heading, an empty line and the lines of the entries that have it.
pub open spec fn section_of(
    heading: Seq<char>,
    issues: Seq<IssueClassification>,
    status: IssueStatus,
) -> Seq<Seq<char>> {
    if issues.filter(has_status(status)).len() == 0 {
        Seq::empty()
    } else {
        seq![heading, Seq::<char>::empty()] + blocks_of(issues, status)
    }
}

/// The rule that frames the statistics.
pub open spec fn rule_line() -> Seq<char> {
    "─────────────────────────────────────────────────"@
}

/// A line that gives a count of files with its share in percent.
pub open spec fn share_line_of(label: Seq<char>, count: nat, percent: Seq<char>) -> Seq<char> {
    label + decimal_text(count) + " ("@ + percent + "%)"@
}

/// The statistics: the files by the state of their issue, each with its
/// share as the caller wrote it, the open issues of the tracker, and the
/// issues by status; partial cleanups are named only where there are some.
pub open spec fn statistics_of(
    files_open: nat,
    files_closed: nat,
    open_percent: Seq<char>,
    closed_percent: Seq<char>,
    total_open_issues: nat,
    cleaned: nat,
    attention: nat,
    partial: nat,
) -> Seq<Seq<char>> {
    seq![
        rule_line(),
        "Statistics:"@,
        "  Total crash test files deleted: "@ + decimal_text(files_open + files_closed),
        share_line_of("  Files with open issues: "@, files_open, open_percent),
        share_line_of("  Files with closed issues: "@, files_closed, closed_percent),
        Seq::<char>::empty(),
        "  Total open issues in rust-lang/rust: "@ + decimal_text(total_open_issues),
        Seq::<char>::empty(),
        "  Issues fully cleaned up: "@ + decimal_text(cleaned),
        "  Issues needing attention: "@ + decimal_text(attention),
    ] + if partial > 0 {
        seq!["  Issues with partial cleanup: "@ + decimal_text(partial)]
    } else {
        Seq::<Seq<char>>::empty()
    } + seq![rule_line()]
}

/// The last lines of the report: all is well where no issue needs
/// attention, else how many do and what to do about them.
pub open spec fn closing_of(attention: nat) -> Seq<Seq<char>> {
    if attention == 0 {
        seq![
            Seq::<char>::empty(),
            "✅ All fully deleted crash tests have properly closed issues!"@,
        ]
    } else {
        seq![
            Seq::<char>::empty(),
            "⚠️  Found "@ + decimal_text(attention) + " issue(s) that need attention."@,
            Seq::<char>::empty(),
            "These issues should either:"@,
            "  1. Be closed (if the issue is actually fixed)"@,
            "  2. Have tests restored (if removed by mistake)"@,
        ]
    }
}

/// The heading of the issues that need attention.
pub open spec fn attention_heading() -> Seq<char> {
    "⚠️  Out-of-sync issues (ALL files deleted but issue still open):"@
}

/// The heading of the partial cleanups.
pub open spec fn partial_heading() -> Seq<char> {
    "ℹ️  Partial cleanup (some files deleted, others remain):"@
}

/// The whole report, line by line: the issues that need attention, the
/// partial cleanups, the statistics and the closing lines.
pub open spec fn report_of(
    classification: Classification,
    total_open_issues: nat,
    open_percent: Seq<char>,
    closed_percent: Seq<char>,
) -> Seq<Seq<char>> {
    let issues = classification.issues@;
    let attention = issues.filter(has_status(IssueStatus::FullyDeletedOpen)).len();
    let cleaned = issues.filter(has_status(IssueStatus::FullyDeletedClosed)).len();
    let partial = issues.filter(has_status(IssueStatus::PartiallyDeleted)).len();
    section_of(attention_heading(), issues, IssueStatus::FullyDeletedOpen) + section_of(
        partial_heading(),
        issues,
        IssueStatus::PartiallyDeleted,
    ) + statistics_of(
        classification.files_with_open_issues as nat,
        classification.files_with_closed_issues as nat,
        open_percent,
        closed_percent,
        total_open_issues,
        cleaned,
        attention,
        partial,
    ) + closing_of(attention)
}

/// Appends `text` to `lines` as one more line.
fn push_line(lines: &mut Vec<String>, text: String)
    ensures
        text_views(final(lines)@) == text_views(old(lines)@).push(text@),
{
    lines.push(text);
    assert(text_views(lines@) =~= text_views(old(lines)@).push(text@));
}

/// Appends the lines `more` to `lines`.
fn push_lines(lines: &mut Vec<String>, more: Vec<String>)
    ensures
        text_views(final(lines)@) == text_views(old(lines)@) + text_views(more@),
{
    let mut more = more;
    let ghost added = more@;
    lines.append(&mut more);
    assert(text_views(lines@) =~= text_views(old(lines)@) + text_views(added));
}

/// A label followed by a number.
fn counted_line(label: &str, count: usize) -> (line: String)
    ensures
        line@ == label@ + decimal_text(count as nat),
{
    let mut line = label.to_owned();
    push_decimal(&mut line, count as u128);
    line
}

/// A label followed by a number and its share in percent.
fn share_line(label: &str, count: usize, percent: &str) -> (line: String)
    ensures
        line@ == share_line_of(label@, count as nat, percent@),
{
    let mut line = counted_line(label, count);
    line.append(" (");
    line.append(percent);
    line.append("%)");
    assert(line@ =~= share_line_of(label@, count as nat, percent@));
    line
}

/// Appends to `lines` the lines of the entries of `issues` that have the
/// status `status`.
fn push_blocks(lines: &mut Vec<String>, issues: &Vec<IssueClassification>, status: IssueStatus)
    requires
        status != IssueStatus::FullyDeletedClosed,
    ensures
        text_views(final(lines)@) == text_views(old(lines)@) + blocks_of(issues@, status),
{
    let ghost before = text_views(lines@);
    let mut i: usize = 0;
    proof {
        assert(issues@.take(0) =~= Seq::<IssueClassification>::empty());
        assert(before + Seq::<Seq<char>>::empty() =~= before);
    }
    while i < issues.len()
        invariant
            i <= issues.len(),
            status != IssueStatus::FullyDeletedClosed,
            text_views(lines@) == before + blocks_of(issues@.take(i as int), status),
        decreases issues.len() - i,
    {
        let ghost so_far = blocks_of(issues@.take(i as int), status);
        proof {
            assert(issues@.take(i + 1).drop_last() =~= issues@.take(i as int));
            assert(issues@.take(i + 1).last() == issues@[i as int]);
        }
        let entry = &issues[i];
        if entry.status == status {
            let block = match status {
                IssueStatus::FullyDeletedOpen => attention_lines(entry),
                _ => partial_lines(entry),
            };
            push_lines(lines, block);
            assert(text_views(lines@) =~= before + (so_far + lines_for(*entry)));
        } else {
            assert(before + so_far =~= before + (so_far + Seq::<Seq<char>>::empty()));
        }
        i = i + 1;
    }
    proof {
        assert(issues@.take(issues@.len() as int) =~= issues@);
    }
}

/// Appends a section to `lines`.
fn push_section(
    lines: &mut Vec<String>,
    heading: &str,
    issues: &Vec<IssueClassification>,
    status: IssueStatus,
)
    requires
        status != IssueStatus::FullyDeletedClosed,
    ensures
        text_views(final(lines)@) == text_views(old(lines)@) + section_of(
            heading@,
            issues@,
            status,
        ),
{
    let ghost before = text_views(lines@);
    if count_with_status(issues, status) > 0 {
        push_line(lines, heading.to_owned());
        push_line(lines, String::new());
        push_blocks(lines, issues, status);
        assert(text_views(lines@) =~= before + (seq![heading@, Seq::<char>::empty()] + blocks_of(
            issues@,
            status,
        )));
    } else {
        assert(before =~= before + Seq::<Seq<char>>::empty());
    }
}

/// Appends the statistics to `lines`.
fn push_statistics(
    lines: &mut Vec<String>,
    files_open: usize,
    files_closed: usize,
    open_percent: &str,
    closed_percent: &str,
    total_open_issues: usize,
    cleaned: usize,
    attention: usize,
    partial: usize,
)
    ensures
        text_views(final(lines)@) == text_views(old(lines)@) + statistics_of(
            files_open as nat,
            files_closed as nat,
            open_percent@,
            closed_percent@,
            total_open_issues as nat,
            cleaned as nat,
            attention as nat,
            partial as nat,
        ),
{
    let mut block: Vec<String> = Vec::new();
    assert(text_views(block@) =~= Seq::<Seq<char>>::empty());
    push_line(&mut block, "─────────────────────────────────────────────────".to_owned());
    push_line(&mut block, "Statistics:".to_owned());
    let mut total = "  Total crash test files deleted: ".to_owned();
    push_decimal(&mut total, files_open as u128 + files_closed as u128);
    push_line(&mut block, total);
    push_line(&mut block, share_line("  Files with open issues: ", files_open, open_percent));
    push_line(&mut block, share_line("  Files with closed issues: ", files_closed, closed_percent));
    push_line(&mut block, String::new());
    push_line(&mut block, counted_line("  Total open issues in rust-lang/rust: ", total_open_issues));
    push_line(&mut block, String::new());
    push_line(&mut block, counted_line("  Issues fully cleaned up: ", cleaned));
    push_line(&mut block, counted_line("  Issues needing attention: ", attention));
    if partial > 0 {
        push_line(&mut block, counted_line("  Issues with partial cleanup: ", partial));
    }
    push_line(&mut block, "─────────────────────────────────────────────────".to_owned());
    assert(text_views(block@) =~= statistics_of(
        files_open as nat,
        files_closed as nat,
        open_percent@,
        closed_percent@,
        total_open_issues as nat,
        cleaned as nat,
        attention as nat,
        partial as nat,
    ));
    push_lines(lines, block);
}

/// Appends the closing lines to `lines`.
fn push_closing(lines: &mut Vec<String>, attention: usize)
    ensures
        text_views(final(lines)@) == text_views(old(lines)@) + closing_of(attention as nat),
{
    let mut block: Vec<String> = Vec::new();
    assert(text_views(block@) =~= Seq::<Seq<char>>::empty());
    push_line(&mut block, String::new());
    if attention == 0 {
        push_line(
            &mut block,
            "✅ All fully deleted crash tests have properly closed issues!".to_owned(),
        );
    } else {
        let mut found = "⚠️  Found ".to_owned();
        push_decimal(&mut found, attention as u128);
        found.append(" issue(s) that need attention.");
        push_line(&mut block, found);
        push_line(&mut block, String::new());
        push_line(&mut block, "These issues should either:".to_owned());
        push_line(&mut block, "  1. Be closed (if the issue is actually fixed)".to_owned());
        push_line(&mut block, "  2. Have tests restored (if removed by mistake)".to_owned());
    }
    assert(text_views(block@) =~= closing_of(attention as nat));
    push_lines(lines, block);
}

/// Writes the report for `classification`, line by line. The two shares are
/// put in as the caller wrote them.
pub fn report_lines(
    classification: &Classification,
    total_open_issues: usize,
    open_percent: &str,
    closed_percent: &str,
) -> (lines: Vec<String>)
    ensures
        text_views(lines@) == report_of(
            *classification,
            total_open_issues as nat,
            open_percent@,
            closed_percent@,
        ),
{
    let issues = &classification.issues;
    let attention = count_with_status(issues, IssueStatus::FullyDeletedOpen);
    let cleaned = count_with_status(issues, IssueStatus::FullyDeletedClosed);
    let partial = count_with_status(issues, IssueStatus::PartiallyDeleted);
    let mut lines: Vec<String> = Vec::new();
    let ghost start = text_views(lines@);
    assert(start =~= Seq::<Seq<char>>::empty());
    push_section(
        &mut lines,
        "⚠️  Out-of-sync issues (ALL files deleted but issue still open):",
        issues,
        IssueStatus::FullyDeletedOpen,
    );
    push_section(
        &mut lines,
        "ℹ️  Partial cleanup (some files deleted, others remain):",
        issues,
        IssueStatus::PartiallyDeleted,
    );
    push_statistics(
        &mut lines,
        classification.files_with_open_issues,
        classification.files_with_closed_issues,
        open_percent,
        closed_percent,
        total_open_issues,
        cleaned,
        attention,
        partial,
    );
    push_closing(&mut lines, attention);
    assert(text_views(lines@) =~= report_of(
        *classification,
        total_open_issues as nat,
        open_percent@,
        closed_percent@,
    ));
    lines
}

} // verus!
