//! Deletions of crash regression tests in a repository's history.

use vstd::prelude::*;
use vstd::string::StringExecFns;
use crate::text::{
    is_digit, all_digits, decimal_value, parse_u64_spec, find_from, rfind_before, chars_of,
    is_digit_char, parse_u64, find_char, lemma_find_from_is, lemma_rfind_before_is,
};
use crate::paths::{
    file_name_bounds, file_name_of, stem_len, file_stem_of, file_stem_range,
    lemma_trimmed_len_keeps,
};
use crate::dates::{CalendarDate, date_of_timestamp, date_text};
use crate::history::{
    CommitView, ScanProgress, ScanState, WalkAction, scan_of, scans_to, scan_fails,
    is_scan_result, some_scan_fails, commit_action, collect_deletions,
};
use crate::repo::{
    ChangeKind, EntryKind, is_c_text, open_repository, next_commit_id, commit_seconds,
    commit_sha, commit_message, diff_trees, delta_count, delta_kind_at, delta_old_path_at,
    error_text, tree_entry_at, entry_kind_at, entry_name_at, diff_kinds, diff_old_paths,
    tree_entry_kinds, tree_entry_names,
};

verus! {

/// One crash test file that a commit removed.
#[derive(Debug, Clone)]
pub struct DeletedCrashTest {
    pub file_path: String,
    pub issue_number: u64,
    pub commit_sha: String,
    pub commit_date: String,
    pub pr_number: Option<u64>,
}

/// A deletion as plain values.
pub struct DeletionView {
    pub file_path: Seq<char>,
    pub issue_number: u64,
    pub commit_sha: Seq<char>,
    pub commit_date: Seq<char>,
    pub pr_number: Option<u64>,
}

impl View for DeletedCrashTest {
    type V = DeletionView;

    open spec fn view(&self) -> DeletionView {
        DeletionView {
            file_path: self.file_path@,
            issue_number: self.issue_number,
            commit_sha: self.commit_sha@,
            commit_date: self.commit_date@,
            pr_number: self.pr_number,
        }
    }
}

/// The deletions of `events` as plain values.
pub open spec fn deletion_views(events: Seq<DeletedCrashTest>) -> Seq<DeletionView> {
    Seq::new(events.len(), |i: int| events[i]@)
}

/// The texts of `items`.
pub open spec fn text_views(items: Seq<String>) -> Seq<Seq<char>> {
    Seq::new(items.len(), |i: int| items[i]@)
}

/// The issue number that a file stem carries: the stem itself when it is a
/// number, else what stands before its first hyphen when that is a number.
pub open spec fn issue_number_of_stem(stem: Seq<char>) -> Option<u64> {
    match parse_u64_spec(stem) {
        Some(n) => Some(n),
        None => {
            let dash = find_from(stem, '-', 0);
            if dash < stem.len() {
                parse_u64_spec(stem.subrange(0, dash))
            } else {
                None
            }
        },
    }
}

/// The issue number that the file name of `path` carries.
pub open spec fn issue_number_of(path: Seq<char>) -> Option<u64> {
    match file_stem_of(path) {
        Some(stem) => issue_number_of_stem(stem),
        None => None,
    }
}

/// The issue number in `v[start..end]`, read as a file stem.
pub(crate) fn issue_number_in(v: &Vec<char>, start: usize, end: usize) -> (r: Option<u64>)
    requires
        start <= end <= v.len(),
    ensures
        r == issue_number_of_stem(v@.subrange(start as int, end as int)),
{
    let ghost stem = v@.subrange(start as int, end as int);
    match parse_u64(v, start, end) {
        Some(n) => Some(n),
        None => {
            let dash = find_char(v, '-', start, end);
            if dash < end {
                proof {
                    assert(stem.subrange(0, dash - start) =~= v@.subrange(
                        start as int,
                        dash as int,
                    ));
                }
                parse_u64(v, start, dash)
            } else {
                None
            }
        },
    }
}

/// Extracts the issue number from a crash test's path: `12345.rs` and
/// `12345-foo.rs` give 12345, `foo.rs` gives nothing.
pub fn extract_issue_number(path: &str) -> (r: Option<u64>)
    ensures
        r == issue_number_of(path@),
{
    let v = chars_of(path);
    match file_stem_range(&v) {
        Some((start, end)) => issue_number_in(&v, start, end),
        None => None,
    }
}

/// Whether `c` occurs nowhere in `s`.
pub open spec fn lacks(s: Seq<char>, c: char) -> bool {
    forall|i: int| 0 <= i < s.len() ==> #[trigger] s[i] != c
}

/// The file name of `dir + name` is `name` when `dir` is empty or ends in a
/// separator and `name` is a non-empty component that starts with a digit.
proof fn lemma_file_name_of_joined(dir: Seq<char>, name: Seq<char>)
    requires
        dir.len() == 0 || dir.last() == '/',
        name.len() > 0,
        is_digit(name[0]),
        lacks(name, '/'),
    ensures
        file_name_of(dir + name) == Some(name),
{
    let path = dir + name;
    let n = path.len() as int;
    assert(path.last() == name.last());
    if path.last() == '.' {
        assert(name.len() >= 2);
        assert(path[n - 2] == name[name.len() - 2]);
    }
    lemma_trimmed_len_keeps(path);
    assert(path.subrange(0, n) =~= path);
    assert forall|j: int| dir.len() - 1 < j < n implies path[j] != '/' by {
        assert(path[j] == name[j - dir.len()]);
    }
    lemma_rfind_before_is(path, '/', n, dir.len() - 1);
    assert(path[dir.len() as int] == name[0]);
    assert(file_name_bounds(path) == Some((dir.len() as int, n)));
    assert(path.subrange(dir.len() as int, n) =~= name);
}

/// A path whose file name is a number followed by a dot and an extension
/// carries that number: `<dir>/<N>.<ext>` gives `N`, whatever the directory.
pub proof fn lemma_plain_numbered_path(dir: Seq<char>, digits: Seq<char>, ext: Seq<char>)
    requires
        dir.len() == 0 || dir.last() == '/',
        digits.len() > 0,
        all_digits(digits),
        decimal_value(digits) <= u64::MAX,
        lacks(ext, '.'),
        lacks(ext, '/'),
    ensures
        issue_number_of(dir + digits + seq!['.'] + ext) == Some(decimal_value(digits) as u64),
{
    let name = digits + seq!['.'] + ext;
    let dot = digits.len() as int;
    assert(dir + digits + seq!['.'] + ext =~= dir + name);
    assert(name[0] == digits[0]);
    assert forall|i: int| 0 <= i < name.len() implies #[trigger] name[i] != '/' by {
        if i < dot {
            assert(name[i] == digits[i]);
        } else if i > dot {
            assert(name[i] == ext[i - dot - 1]);
        }
    }
    lemma_file_name_of_joined(dir, name);
    assert forall|j: int| dot < j < name.len() implies name[j] != '.' by {
        assert(name[j] == ext[j - dot - 1]);
    }
    lemma_rfind_before_is(name, '.', name.len() as int, dot);
    assert(stem_len(name) == dot);
    assert(name.subrange(0, dot) =~= digits);
    assert(digits[0] != '+');
}

/// A path whose file name is a number, a hyphen, a slug, a dot and an
/// extension carries that number: `<dir>/<N>-<slug>.<ext>` gives `N`.
pub proof fn lemma_slugged_numbered_path(
    dir: Seq<char>,
    digits: Seq<char>,
    slug: Seq<char>,
    ext: Seq<char>,
)
    requires
        dir.len() == 0 || dir.last() == '/',
        digits.len() > 0,
        all_digits(digits),
        decimal_value(digits) <= u64::MAX,
        lacks(slug, '/'),
        lacks(ext, '.'),
        lacks(ext, '/'),
    ensures
        issue_number_of(dir + digits + seq!['-'] + slug + seq!['.'] + ext) == Some(
            decimal_value(digits) as u64,
        ),
{
    let stem = digits + seq!['-'] + slug;
    let name = stem + seq!['.'] + ext;
    let dash = digits.len() as int;
    let dot = stem.len() as int;
    assert(dir + digits + seq!['-'] + slug + seq!['.'] + ext =~= dir + name);
    assert(name[0] == digits[0]);
    assert forall|i: int| 0 <= i < name.len() implies #[trigger] name[i] != '/' by {
        if i < dash {
            assert(name[i] == digits[i]);
        } else if dash < i < dot {
            assert(name[i] == slug[i - dash - 1]);
        } else if i > dot {
            assert(name[i] == ext[i - dot - 1]);
        }
    }
    lemma_file_name_of_joined(dir, name);
    assert forall|j: int| dot < j < name.len() implies name[j] != '.' by {
        assert(name[j] == ext[j - dot - 1]);
    }
    lemma_rfind_before_is(name, '.', name.len() as int, dot);
    assert(stem_len(name) == dot);
    assert(name.subrange(0, dot) =~= stem);
    assert(stem[0] == digits[0]);
    assert(stem[dash] == '-');
    assert(!is_digit(stem[dash]));
    assert(parse_u64_spec(stem) is None);
    assert forall|j: int| 0 <= j < dash implies stem[j] != '-' by {
        assert(stem[j] == digits[j]);
    }
    lemma_find_from_is(stem, '-', 0, dash);
    assert(stem.subrange(0, dash) =~= digits);
}

/// A path carries no issue number exactly when it names no file, or when its
/// stem is not a number and no hyphen in the stem follows a number.
pub proof fn lemma_issue_number_absent(path: Seq<char>)
    ensures
        issue_number_of(path) is None <==> match file_stem_of(path) {
            None => true,
            Some(stem) => parse_u64_spec(stem) is None && forall|dash: int|
                0 <= dash < stem.len() && stem[dash] == '-' ==> parse_u64_spec(
                    #[trigger] stem.subrange(0, dash),
                ) is None,
        },
{
    match file_stem_of(path) {
        None => {},
        Some(stem) => {
            let first = find_from(stem, '-', 0);
            crate::text::lemma_find_from(stem, '-', 0);
            if parse_u64_spec(stem) is None {
                assert forall|dash: int|
                    first < dash < stem.len() && stem[dash] == '-' implies parse_u64_spec(
                    #[trigger] stem.subrange(0, dash),
                ) is None by {
                    let prefix = stem.subrange(0, dash);
                    let body = crate::text::unsigned_body(prefix);
                    assert(prefix[first] == '-');
                    if first == 0 {
                        assert(body =~= prefix);
                        assert(!is_digit(body[0]));
                    } else if prefix[0] == '+' {
                        assert(body[first - 1] == '-');
                        assert(!is_digit(body[first - 1]));
                    } else {
                        assert(!is_digit(body[first]));
                    }
                }
            }
        },
    }
}

/// The marker that a merge bot writes before the number of the pull request
/// it merges.
pub open spec fn merge_marker() -> Seq<char> {
    "Auto merge of #"@
}

/// Whether `pat` stands in `s` at index `i`.
pub open spec fn occurs_at(s: Seq<char>, pat: Seq<char>, i: int) -> bool {
    0 <= i && i + pat.len() <= s.len() && s.subrange(i, i + pat.len()) == pat
}

/// The least index at or after `from` where `pat` stands in `s`.
pub open spec fn first_occurrence(s: Seq<char>, pat: Seq<char>, from: int) -> Option<int>
    decreases s.len() + 1 - from,
{
    if from < 0 || from + pat.len() > s.len() {
        None
    } else if occurs_at(s, pat, from) {
        Some(from)
    } else {
        first_occurrence(s, pat, from + 1)
    }
}

/// Where the run of digits that starts at `from` ends.
pub open spec fn digit_run_end(s: Seq<char>, from: int) -> int
    decreases s.len() - from,
{
    if from < 0 || from >= s.len() || !is_digit(s[from]) {
        from
    } else {
        digit_run_end(s, from + 1)
    }
}

/// The pull request number that a commit message names: the digits that
/// directly follow the first merge marker, if they form a number that fits.
pub open spec fn pr_number_of(message: Seq<char>) -> Option<u64> {
    match first_occurrence(message, merge_marker(), 0) {
        None => None,
        Some(at) => {
            let start = at + merge_marker().len();
            parse_u64_spec(message.subrange(start, digit_run_end(message, start)))
        },
    }
}

/// `first_occurrence` returns an occurrence, and none starts before it.
pub proof fn lemma_first_occurrence(s: Seq<char>, pat: Seq<char>, from: int)
    requires
        0 <= from,
    ensures
        match first_occurrence(s, pat, from) {
            Some(at) => from <= at && occurs_at(s, pat, at) && forall|j: int|
                from <= j < at ==> !occurs_at(s, pat, j),
            None => forall|j: int| from <= j ==> !occurs_at(s, pat, j),
        },
    decreases s.len() + 1 - from,
{
    if from + pat.len() <= s.len() && !occurs_at(s, pat, from) {
        lemma_first_occurrence(s, pat, from + 1);
    }
}

/// An occurrence with none before it is what `first_occurrence` returns.
pub proof fn lemma_first_occurrence_is(s: Seq<char>, pat: Seq<char>, from: int, at: int)
    requires
        0 <= from <= at,
        occurs_at(s, pat, at),
        forall|j: int| from <= j < at ==> !occurs_at(s, pat, j),
    ensures
        first_occurrence(s, pat, from) == Some(at),
    decreases at - from,
{
    if from < at {
        lemma_first_occurrence_is(s, pat, from + 1, at);
    }
}

/// A run of digits that is followed by a non-digit, or by the end, is where
/// `digit_run_end` stops.
pub proof fn lemma_digit_run_end_is(s: Seq<char>, from: int, end: int)
    requires
        0 <= from <= end <= s.len(),
        all_digits(s.subrange(from, end)),
        end < s.len() ==> !is_digit(s[end]),
    ensures
        digit_run_end(s, from) == end,
    decreases end - from,
{
    if from < end {
        assert(s.subrange(from, end)[0] == s[from]);
        assert forall|i: int| 0 <= i < end - from - 1 implies is_digit(
            #[trigger] s.subrange(from + 1, end)[i],
        ) by {
            assert(s.subrange(from + 1, end)[i] == s.subrange(from, end)[i + 1]);
        }
        lemma_digit_run_end_is(s, from + 1, end);
    }
}

/// A message in which the first merge marker is directly followed by a number
/// names that number, whatever stands before the marker and after the digits.
pub proof fn lemma_pr_number_of_marked(before: Seq<char>, digits: Seq<char>, after: Seq<char>)
    requires
        forall|j: int|
            0 <= j < before.len() ==> !occurs_at(
                before + merge_marker() + digits + after,
                merge_marker(),
                j,
            ),
        digits.len() > 0,
        all_digits(digits),
        decimal_value(digits) <= u64::MAX,
        after.len() > 0 ==> !is_digit(after[0]),
    ensures
        pr_number_of(before + merge_marker() + digits + after) == Some(
            decimal_value(digits) as u64,
        ),
{
    let marker = merge_marker();
    let message = before + marker + digits + after;
    let at = before.len() as int;
    let start = at + marker.len();
    let end = start + digits.len();
    assert(message.subrange(at, at + marker.len()) =~= marker);
    lemma_first_occurrence_is(message, marker, 0, at);
    assert(message.subrange(start, end) =~= digits);
    if end < message.len() {
        assert(message[end] == after[0]);
    }
    lemma_digit_run_end_is(message, start, end);
    assert(digits[0] != '+');
}

/// A message that holds no merge marker names no pull request, whatever
/// digits it holds.
pub proof fn lemma_pr_number_of_unmarked(message: Seq<char>)
    requires
        forall|j: int| 0 <= j ==> !occurs_at(message, merge_marker(), j),
    ensures
        pr_number_of(message) is None,
{
    lemma_first_occurrence(message, merge_marker(), 0);
}

/// Whether `pat` stands in `v` at index `at`.
pub(crate) fn starts_at(v: &Vec<char>, pat: &Vec<char>, at: usize) -> (b: bool)
    requires
        at + pat.len() <= v.len(),
    ensures
        b == occurs_at(v@, pat@, at as int),
{
    let ghost window = v@.subrange(at as int, at + pat.len());
    let mut k: usize = 0;
    while k < pat.len()
        invariant
            k <= pat.len(),
            at + pat.len() <= v.len(),
            window == v@.subrange(at as int, at + pat.len()),
            forall|j: int| 0 <= j < k ==> window[j] == pat@[j],
        decreases pat.len() - k,
    {
        if v[at + k] != pat[k] {
            assert(window[k as int] != pat@[k as int]);
            return false;
        }
        k = k + 1;
    }
    assert(window =~= pat@);
    true
}

/// The first index where `pat` stands in `v`.
pub(crate) fn find_first(v: &Vec<char>, pat: &Vec<char>) -> (r: Option<usize>)
    ensures
        match r {
            Some(at) => first_occurrence(v@, pat@, 0) == Some(at as int),
            None => first_occurrence(v@, pat@, 0) is None,
        },
        r matches Some(at) ==> at + pat.len() <= v.len(),
{
    if pat.len() > v.len() {
        return None;
    }
    let last: usize = v.len() - pat.len();
    let mut i: usize = 0;
    while i < last
        invariant
            i <= last,
            last == v.len() - pat.len(),
            first_occurrence(v@, pat@, 0) == first_occurrence(v@, pat@, i as int),
        decreases last - i,
    {
        if starts_at(v, pat, i) {
            return Some(i);
        }
        i = i + 1;
    }
    if starts_at(v, pat, last) {
        Some(last)
    } else {
        assert(first_occurrence(v@, pat@, last + 1) is None);
        None
    }
}

/// Where the run of digits that starts at `from` ends.
pub(crate) fn digit_run(v: &Vec<char>, from: usize) -> (end: usize)
    requires
        from <= v.len(),
    ensures
        end == digit_run_end(v@, from as int),
        from <= end <= v.len(),
{
    let mut i: usize = from;
    while i < v.len()
        invariant
            from <= i <= v.len(),
            digit_run_end(v@, from as int) == digit_run_end(v@, i as int),
        decreases v.len() - i,
    {
        if !is_digit_char(v[i]) {
            return i;
        }
        i = i + 1;
    }
    i
}

/// Extracts the pull request number from a merge commit's message:
/// `Auto merge of #147900 - ...` gives 147900, a message without the marker
/// gives nothing.
pub fn extract_pr_number(message: &str) -> (r: Option<u64>)
    ensures
        r == pr_number_of(message@),
{
    let v = chars_of(message);
    let marker = chars_of("Auto merge of #");
    match find_first(&v, &marker) {
        None => None,
        Some(at) => {
            let start = at + marker.len();
            let end = digit_run(&v, start);
            parse_u64(&v, start, end)
        },
    }
}

/// The step of a scan at which something went wrong.
#[derive(Clone, Copy, Debug, PartialEq, Eq, Structural)]
pub enum ScanStep {
    Pathspec,
    OpenRepository,
    CreateRevwalk,
    SimplifyFirstParent,
    PushHead,
    NextCommit,
    FindCommit,
    InvalidTimestamp,
    ParentCommit,
    CommitTree,
    ParentTree,
    Diff,
    Head,
    HeadTree,
    Directory,
}

/// A failure to read the repository: the step that failed, and what is known
/// of the cause (the git library's message, or the id of the commit).
#[derive(Debug)]
pub struct RepositoryError {
    pub step: ScanStep,
    pub detail: String,
}

/// What is said of a failure at `step`.
pub open spec fn step_text(step: ScanStep) -> Seq<char> {
    match step {
        ScanStep::Pathspec => "Invalid path pattern"@,
        ScanStep::OpenRepository => "Failed to open git repository"@,
        ScanStep::CreateRevwalk => "Failed to create revwalk"@,
        ScanStep::SimplifyFirstParent => "Failed to simplify to first parent"@,
        ScanStep::PushHead => "Failed to push HEAD"@,
        ScanStep::NextCommit => "Failed to get commit OID"@,
        ScanStep::FindCommit => "Failed to find commit"@,
        ScanStep::InvalidTimestamp => "Invalid timestamp"@,
        ScanStep::ParentCommit => "Failed to get parent commit"@,
        ScanStep::CommitTree => "Failed to get commit tree"@,
        ScanStep::ParentTree => "Failed to get parent tree"@,
        ScanStep::Diff => "Failed to create diff"@,
        ScanStep::Head => "Failed to resolve HEAD"@,
        ScanStep::HeadTree => "Failed to get HEAD tree"@,
        ScanStep::Directory => "Failed to read directory"@,
    }
}

impl RepositoryError {
    /// The failure in words: what failed, a colon, and what is known of the
    /// cause.
    pub fn message(&self) -> (text: String)
        ensures
            text@ == step_text(self.step) + ": "@ + self.detail@,
    {
        let mut text = match self.step {
            ScanStep::Pathspec => "Invalid path pattern".to_owned(),
            ScanStep::OpenRepository => "Failed to open git repository".to_owned(),
            ScanStep::CreateRevwalk => "Failed to create revwalk".to_owned(),
            ScanStep::SimplifyFirstParent => "Failed to simplify to first parent".to_owned(),
            ScanStep::PushHead => "Failed to push HEAD".to_owned(),
            ScanStep::NextCommit => "Failed to get commit OID".to_owned(),
            ScanStep::FindCommit => "Failed to find commit".to_owned(),
            ScanStep::InvalidTimestamp => "Invalid timestamp".to_owned(),
            ScanStep::ParentCommit => "Failed to get parent commit".to_owned(),
            ScanStep::CommitTree => "Failed to get commit tree".to_owned(),
            ScanStep::ParentTree => "Failed to get parent tree".to_owned(),
            ScanStep::Diff => "Failed to create diff".to_owned(),
            ScanStep::Head => "Failed to resolve HEAD".to_owned(),
            ScanStep::HeadTree => "Failed to get HEAD tree".to_owned(),
            ScanStep::Directory => "Failed to read directory".to_owned(),
        };
        text.append(": ");
        text.append(self.detail.as_str());
        text
    }
}

/// Whether `text` holds no NUL character.
pub fn has_no_nul(text: &str) -> (b: bool)
    ensures
        b == is_c_text(text@),
{
    let v = chars_of(text);
    let mut i: usize = 0;
    while i < v.len()
        invariant
            i <= v.len(),
            v@ == text@,
            forall|j: int| 0 <= j < i ==> #[trigger] v@[j] != '\0',
        decreases v.len() - i,
    {
        if v[i] == '\0' {
            assert(text@[i as int] == '\0');
            return false;
        }
        i = i + 1;
    }
    true
}

/// The failure of the git library at `step`.
fn git_failure(step: ScanStep, error: &git2::Error) -> (failure: RepositoryError)
    ensures
        failure.step == step,
{
    RepositoryError { step, detail: error_text(error) }
}

/// What a diff says of one file: the kind of change, and the path that the
/// file had before, if it had one.
#[derive(Debug)]
pub struct DeltaRecord {
    pub kind: ChangeKind,
    pub old_path: Option<String>,
}

/// The old paths of the deltas that are deletions, in their order.
pub open spec fn deleted_paths_of(deltas: Seq<DeltaRecord>) -> Seq<Seq<char>>
    decreases deltas.len(),
{
    if deltas.len() == 0 {
        Seq::empty()
    } else {
        let rest = deleted_paths_of(deltas.drop_last());
        let last = deltas.last();
        if last.kind == ChangeKind::Deleted && last.old_path is Some {
            rest.push(last.old_path->0@)
        } else {
            rest
        }
    }
}

/// Picks the deleted paths out of the deltas of a diff: the old path of each
/// delta that is a deletion, in the order of the diff.
pub fn deleted_paths(deltas: &Vec<DeltaRecord>) -> (paths: Vec<String>)
    ensures
        text_views(paths@) == deleted_paths_of(deltas@),
{
    let mut paths: Vec<String> = Vec::new();
    let mut i: usize = 0;
    proof {
        assert(deltas@.take(0) =~= Seq::<DeltaRecord>::empty());
        assert(text_views(paths@) =~= Seq::<Seq<char>>::empty());
    }
    while i < deltas.len()
        invariant
            i <= deltas.len(),
            text_views(paths@) == deleted_paths_of(deltas@.take(i as int)),
        decreases deltas.len() - i,
    {
        proof {
            assert(deltas@.take(i + 1).drop_last() =~= deltas@.take(i as int));
            assert(deltas@.take(i + 1).last() == deltas@[i as int]);
        }
        match deltas[i].kind {
            ChangeKind::Deleted => {
                match &deltas[i].old_path {
                    Some(path) => {
                        let ghost before = paths@;
                        paths.push(path.clone());
                        assert(text_views(paths@) =~= text_views(before).push(path@));
                    },
                    None => {},
                }
            },
            _ => {},
        }
        i = i + 1;
    }
    proof {
        assert(deltas@.take(deltas@.len() as int) =~= deltas@);
    }
    paths
}

/// A delta as plain values.
pub struct DeltaView {
    pub kind: ChangeKind,
    pub old_path: Option<Seq<char>>,
}

impl View for DeltaRecord {
    type V = DeltaView;

    open spec fn view(&self) -> DeltaView {
        DeltaView {
            kind: self.kind,
            old_path: match self.old_path {
                Some(path) => Some(path@),
                None => None,
            },
        }
    }
}

/// The deltas of `deltas` as plain values.
pub open spec fn delta_views(deltas: Seq<DeltaRecord>) -> Seq<DeltaView> {
    Seq::new(deltas.len(), |i: int| deltas[i]@)
}

/// The deltas that a diff holds, given what a look at each of its places
/// gives: one for each place that gives a delta, in their order.
pub open spec fn deltas_held(
    kinds: Seq<Option<ChangeKind>>,
    old_paths: Seq<Option<Option<Seq<char>>>>,
) -> Seq<DeltaView>
    decreases kinds.len(),
{
    if kinds.len() == 0 || old_paths.len() != kinds.len() {
        Seq::empty()
    } else {
        let rest = deltas_held(kinds.drop_last(), old_paths.drop_last());
        match (kinds.last(), old_paths.last()) {
            (Some(kind), Some(old_path)) => rest.push(DeltaView { kind, old_path }),
            _ => rest,
        }
    }
}

/// Reads the deltas of `diff`, in its order.
fn read_deltas<'repo>(diff: &git2::Diff<'repo>) -> (deltas: Vec<DeltaRecord>)
    ensures
        delta_views(deltas@) == deltas_held(diff_kinds(diff), diff_old_paths(diff)),
{
    let count = delta_count(diff);
    let ghost kinds = diff_kinds(diff);
    let ghost old_paths = diff_old_paths(diff);
    let mut deltas: Vec<DeltaRecord> = Vec::new();
    let mut i: usize = 0;
    proof {
        assert(delta_views(deltas@) =~= Seq::<DeltaView>::empty());
    }
    while i < count
        invariant
            i <= count,
            kinds == diff_kinds(diff),
            old_paths == diff_old_paths(diff),
            count == kinds.len(),
            count == old_paths.len(),
            delta_views(deltas@) == deltas_held(kinds.take(i as int), old_paths.take(i as int)),
        decreases count - i,
    {
        proof {
            assert(kinds.take(i + 1).drop_last() =~= kinds.take(i as int));
            assert(old_paths.take(i + 1).drop_last() =~= old_paths.take(i as int));
            assert(kinds.take(i + 1).last() == kinds[i as int]);
            assert(old_paths.take(i + 1).last() == old_paths[i as int]);
        }
        match (delta_kind_at(diff, i), delta_old_path_at(diff, i)) {
            (Some(kind), Some(old_path)) => {
                let ghost before = deltas@;
                let record = DeltaRecord { kind, old_path };
                deltas.push(record);
                assert(delta_views(deltas@) =~= delta_views(before).push(record@));
            },
            _ => {},
        }
        i = i + 1;
    }
    proof {
        assert(kinds.take(count as int) =~= kinds);
        assert(old_paths.take(count as int) =~= old_paths);
    }
    deltas
}

/// Compares `commit` with its first parent under `pathspec` and returns the
/// paths that it deleted.
fn deletions_against_parent<'a>(
    repo: &'a git2::Repository,
    commit: &git2::Commit<'a>,
    pathspec: &str,
) -> (r: Result<Vec<String>, RepositoryError>)
    requires
        is_c_text(pathspec@),
    ensures
        r matches Err(error) ==> error.step != ScanStep::InvalidTimestamp && error.step
            != ScanStep::Pathspec,
{
    let parent = match commit.parent(0) {
        Ok(parent) => parent,
        Err(error) => {
            return Err(git_failure(ScanStep::ParentCommit, &error));
        },
    };
    let tree = match commit.tree() {
        Ok(tree) => tree,
        Err(error) => {
            return Err(git_failure(ScanStep::CommitTree, &error));
        },
    };
    let parent_tree = match parent.tree() {
        Ok(tree) => tree,
        Err(error) => {
            return Err(git_failure(ScanStep::ParentTree, &error));
        },
    };
    let diff = match diff_trees(repo, &parent_tree, &tree, pathspec) {
        Ok(diff) => diff,
        Err(error) => {
            return Err(git_failure(ScanStep::Diff, &error));
        },
    };
    Ok(deleted_paths(&read_deltas(&diff)))
}

/// Scans the history of the repository at `repo_path` for deleted crash
/// tests: walks its first-parent chain from the head back, compares each
/// commit in the range with its first parent under `pathspec`, and records
/// the deleted paths whose names carry an issue number. What comes back is
/// the scan, by the rules of `history`, of the commits that the walk gave;
/// a pattern that holds a NUL is refused before anything is read.
pub fn scan_deleted_crash_tests(
    repo_path: &str,
    pathspec: &str,
    from_date: Option<CalendarDate>,
    to_date: Option<CalendarDate>,
) -> (r: Result<Vec<DeletedCrashTest>, RepositoryError>)
    ensures
        match r {
            Ok(events) => is_c_text(pathspec@) && is_scan_result(
                deletion_views(events@),
                from_date,
                to_date,
            ),
            Err(error) => {
                &&& error.step == ScanStep::Pathspec <==> !is_c_text(pathspec@)
                &&& error.step == ScanStep::InvalidTimestamp ==> some_scan_fails(
                    from_date,
                    to_date,
                )
            },
        },
{
    if !has_no_nul(pathspec) {
        return Err(RepositoryError { step: ScanStep::Pathspec, detail: pathspec.to_owned() });
    }
    let repo = match open_repository(repo_path) {
        Ok(repo) => repo,
        Err(error) => {
            return Err(git_failure(ScanStep::OpenRepository, &error));
        },
    };
    let mut walk = match repo.revwalk() {
        Ok(walk) => walk,
        Err(error) => {
            return Err(git_failure(ScanStep::CreateRevwalk, &error));
        },
    };
    match walk.simplify_first_parent() {
        Ok(_) => {},
        Err(error) => {
            return Err(git_failure(ScanStep::SimplifyFirstParent, &error));
        },
    }
    match walk.push_head() {
        Ok(_) => {},
        Err(error) => {
            return Err(git_failure(ScanStep::PushHead, &error));
        },
    }
    let mut events: Vec<DeletedCrashTest> = Vec::new();
    let mut commits_scanned: u64 = 0;
    let ghost mut history: Seq<CommitView> = Seq::empty();
    proof {
        assert(deletion_views(events@) =~= Seq::<DeletionView>::empty());
    }
    while commits_scanned < u64::MAX
        invariant
            is_c_text(pathspec@),
            scan_of(history, from_date, to_date) == (ScanState {
                events: deletion_views(events@),
                progress: ScanProgress::Walking,
            }),
        decreases u64::MAX - commits_scanned,
    {
        let oid = match next_commit_id(&mut walk) {
            None => {
                assert(scans_to(history, from_date, to_date, deletion_views(events@)));
                return Ok(events);
            },
            Some(Err(error)) => {
                return Err(git_failure(ScanStep::NextCommit, &error));
            },
            Some(Ok(oid)) => oid,
        };
        let commit = match repo.find_commit(oid) {
            Ok(commit) => commit,
            Err(error) => {
                return Err(git_failure(ScanStep::FindCommit, &error));
            },
        };
        commits_scanned = commits_scanned + 1;
        let sha = commit_sha(&commit);
        let timestamp = commit_seconds(&commit);
        let parent_count = commit.parent_count();
        let message = commit_message(&commit);
        let ghost unread = CommitView {
            sha: sha@,
            timestamp,
            parent_count: parent_count as nat,
            message: message@,
            deleted_paths: Seq::empty(),
        };
        proof {
            assert(history.push(unread).drop_last() =~= history);
        }
        let date = match date_of_timestamp(timestamp) {
            Some(date) => date,
            None => {
                assert(scan_fails(history.push(unread), from_date, to_date));
                return Err(RepositoryError { step: ScanStep::InvalidTimestamp, detail: sha });
            },
        };
        match commit_action(date, from_date, to_date, parent_count) {
            WalkAction::Stop => {
                assert(scans_to(
                    history.push(unread),
                    from_date,
                    to_date,
                    deletion_views(events@),
                ));
                return Ok(events);
            },
            WalkAction::Skip => {
                proof {
                    history = history.push(unread);
                }
            },
            WalkAction::Examine => {
                let paths = match deletions_against_parent(&repo, &commit, pathspec) {
                    Ok(paths) => paths,
                    Err(error) => {
                        return Err(error);
                    },
                };
                let ghost read = CommitView {
                    sha: sha@,
                    timestamp,
                    parent_count: parent_count as nat,
                    message: message@,
                    deleted_paths: text_views(paths@),
                };
                proof {
                    assert(history.push(read).drop_last() =~= history);
                }
                let text = match date_text(date) {
                    Some(text) => text,
                    None => {
                        assert(scan_fails(history.push(read), from_date, to_date));
                        return Err(
                            RepositoryError { step: ScanStep::InvalidTimestamp, detail: sha },
                        );
                    },
                };
                collect_deletions(
                    &mut events,
                    &paths,
                    sha.as_str(),
                    text.as_str(),
                    message.as_str(),
                );
                proof {
                    history = history.push(read);
                }
            },
        }
    }
    assert(scans_to(history, from_date, to_date, deletion_views(events@)));
    Ok(events)
}

/// What a tree holds in one place: the kind of object, and the name of the
/// entry where it is readable.
#[derive(Debug)]
pub struct TreeItem {
    pub kind: EntryKind,
    pub name: Option<String>,
}

/// The path of the entry `name` of `directory`: the directory, a separator
/// and the name.
pub open spec fn entry_path_of(directory: Seq<char>, name: Seq<char>) -> Seq<char> {
    directory + seq!['/'] + name
}

/// The paths of the files among `items`, entries of `directory`, in their
/// order: what is no file, or has no readable name, is left out.
pub open spec fn files_of(directory: Seq<char>, items: Seq<TreeItem>) -> Seq<Seq<char>>
    decreases items.len(),
{
    if items.len() == 0 {
        Seq::empty()
    } else {
        let rest = files_of(directory, items.drop_last());
        let last = items.last();
        if last.kind == EntryKind::Blob && last.name is Some {
            rest.push(entry_path_of(directory, last.name->0@))
        } else {
            rest
        }
    }
}

/// Whether `files` are the files of some listing of `directory`.
pub open spec fn is_listing_of(files: Seq<Seq<char>>, directory: Seq<char>) -> bool {
    exists|items: Seq<TreeItem>| files == files_of(directory, items)
}

/// The path of the entry `name` of `directory`.
pub fn entry_path(directory: &str, name: &str) -> (path: String)
    ensures
        path@ == entry_path_of(directory@, name@),
{
    let mut path = directory.to_owned();
    proof {
        reveal_strlit("/");
        assert("/"@ =~= seq!['/']);
    }
    path.append("/");
    path.append(name);
    path
}

/// Picks the files out of the entries of a directory and gives each its
/// path.
pub fn files_among(directory: &str, items: &Vec<TreeItem>) -> (files: Vec<String>)
    ensures
        text_views(files@) == files_of(directory@, items@),
{
    let mut files: Vec<String> = Vec::new();
    let mut i: usize = 0;
    proof {
        assert(items@.take(0) =~= Seq::<TreeItem>::empty());
        assert(text_views(files@) =~= Seq::<Seq<char>>::empty());
    }
    while i < items.len()
        invariant
            i <= items.len(),
            text_views(files@) == files_of(directory@, items@.take(i as int)),
        decreases items.len() - i,
    {
        proof {
            assert(items@.take(i + 1).drop_last() =~= items@.take(i as int));
            assert(items@.take(i + 1).last() == items@[i as int]);
        }
        match items[i].kind {
            EntryKind::Blob => {
                match &items[i].name {
                    Some(name) => {
                        let ghost before = files@;
                        let path = entry_path(directory, name.as_str());
                        files.push(path);
                        assert(text_views(files@) =~= text_views(before).push(path@));
                    },
                    None => {},
                }
            },
            _ => {},
        }
        i = i + 1;
    }
    proof {
        assert(items@.take(items@.len() as int) =~= items@);
    }
    files
}

/// An entry of a tree as plain values.
pub struct TreeItemView {
    pub kind: EntryKind,
    pub name: Option<Seq<char>>,
}

impl View for TreeItem {
    type V = TreeItemView;

    open spec fn view(&self) -> TreeItemView {
        TreeItemView {
            kind: self.kind,
            name: match self.name {
                Some(name) => Some(name@),
                None => None,
            },
        }
    }
}

/// The entries of `items` as plain values.
pub open spec fn item_views(items: Seq<TreeItem>) -> Seq<TreeItemView> {
    Seq::new(items.len(), |i: int| items[i]@)
}

/// The entries that a tree holds, given what a look at each of its places
/// gives: one for each place that gives an entry, in their order.
pub open spec fn items_held(
    kinds: Seq<Option<EntryKind>>,
    names: Seq<Option<Option<Seq<char>>>>,
) -> Seq<TreeItemView>
    decreases kinds.len(),
{
    if kinds.len() == 0 || names.len() != kinds.len() {
        Seq::empty()
    } else {
        let rest = items_held(kinds.drop_last(), names.drop_last());
        match (kinds.last(), names.last()) {
            (Some(kind), Some(name)) => rest.push(TreeItemView { kind, name }),
            _ => rest,
        }
    }
}

/// Reads the entries of `tree`, in its order.
fn read_tree<'repo>(tree: &git2::Tree<'repo>) -> (items: Vec<TreeItem>)
    ensures
        item_views(items@) == items_held(tree_entry_kinds(tree), tree_entry_names(tree)),
{
    let count = tree.len();
    let ghost kinds = tree_entry_kinds(tree);
    let ghost names = tree_entry_names(tree);
    let mut items: Vec<TreeItem> = Vec::new();
    let mut i: usize = 0;
    proof {
        assert(item_views(items@) =~= Seq::<TreeItemView>::empty());
    }
    while i < count
        invariant
            i <= count,
            kinds == tree_entry_kinds(tree),
            names == tree_entry_names(tree),
            count == kinds.len(),
            count == names.len(),
            item_views(items@) == items_held(kinds.take(i as int), names.take(i as int)),
        decreases count - i,
    {
        proof {
            assert(kinds.take(i + 1).drop_last() =~= kinds.take(i as int));
            assert(names.take(i + 1).drop_last() =~= names.take(i as int));
            assert(kinds.take(i + 1).last() == kinds[i as int]);
            assert(names.take(i + 1).last() == names[i as int]);
        }
        match (entry_kind_at(tree, i), entry_name_at(tree, i)) {
            (Some(kind), Some(name)) => {
                let ghost before = items@;
                let item = TreeItem { kind, name };
                items.push(item);
                assert(item_views(items@) =~= item_views(before).push(item@));
            },
            _ => {},
        }
        i = i + 1;
    }
    proof {
        assert(kinds.take(count as int) =~= kinds);
        assert(names.take(count as int) =~= names);
    }
    items
}

/// Lists the files that the head of the repository at `repo_path` holds
/// directly in `directory`, each as the directory, a separator and the
/// file's name, in the order of the tree. What comes back is what
/// `files_among` picks out of the entries that were read.
pub fn get_current_crash_test_files(repo_path: &str, directory: &str) -> (r: Result<
    Vec<String>,
    RepositoryError,
>)
    ensures
        r matches Ok(files) ==> is_listing_of(text_views(files@), directory@),
{
    let repo = match open_repository(repo_path) {
        Ok(repo) => repo,
        Err(error) => {
            return Err(git_failure(ScanStep::OpenRepository, &error));
        },
    };
    let head = match repo.head() {
        Ok(head) => head,
        Err(error) => {
            return Err(git_failure(ScanStep::Head, &error));
        },
    };
    let root = match head.peel_to_tree() {
        Ok(tree) => tree,
        Err(error) => {
            return Err(git_failure(ScanStep::HeadTree, &error));
        },
    };
    let entry = match tree_entry_at(&root, directory) {
        Ok(entry) => entry,
        Err(error) => {
            return Err(git_failure(ScanStep::Directory, &error));
        },
    };
    let object = match entry.to_object(&repo) {
        Ok(object) => object,
        Err(error) => {
            return Err(git_failure(ScanStep::Directory, &error));
        },
    };
    let tree = match object.peel_to_tree() {
        Ok(tree) => tree,
        Err(error) => {
            return Err(git_failure(ScanStep::Directory, &error));
        },
    };
    let items = read_tree(&tree);
    let files = files_among(directory, &items);
    assert(is_listing_of(text_views(files@), directory@));
    Ok(files)
}

} // verus!
