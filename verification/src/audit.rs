//! Correlation of deletions with the open issues and the files that remain.

use vstd::prelude::*;
use vstd::std_specs::hash::group_hash_axioms;
use std::collections::HashSet;
use crate::git::{DeletedCrashTest, issue_number_of, extract_issue_number};

verus! {

/// How an issue's crash tests and its tracker state relate.
#[derive(Clone, Copy, Debug, PartialEq, Eq, Structural)]
pub enum IssueStatus {
    /// Every test is gone and the issue is still open: needs attention.
    FullyDeletedOpen,
    /// Every test is gone and the issue is closed: in sync.
    FullyDeletedClosed,
    /// Some tests were deleted and others remain, whatever the issue's state.
    PartiallyDeleted,
}

/// The deletions that belong to one issue, in the order in which they came.
#[derive(Debug)]
pub struct IssueGroup {
    pub issue_number: u64,
    pub deletions: Vec<DeletedCrashTest>,
}

/// The predicate that holds of the deletions of `issue`.
pub open spec fn has_issue(issue: u64) -> spec_fn(DeletedCrashTest) -> bool {
    |e: DeletedCrashTest| e.issue_number == issue
}

/// The deletions of `issue` among `events`, in their order.
pub open spec fn deletions_of(events: Seq<DeletedCrashTest>, issue: u64) -> Seq<DeletedCrashTest> {
    events.filter(has_issue(issue))
}

/// Whether some deletion among `events` belongs to `issue`.
pub open spec fn is_deleted_issue(events: Seq<DeletedCrashTest>, issue: u64) -> bool {
    exists|i: int| 0 <= i < events.len() && (#[trigger] events[i]).issue_number == issue
}

/// Whether `groups` is the grouping of `events` by issue: one group for each
/// issue that occurs, in ascending order of issue number, each holding
/// exactly the deletions of its issue in their order.
pub open spec fn is_grouping(groups: Seq<IssueGroup>, events: Seq<DeletedCrashTest>) -> bool {
    &&& forall|i: int, j: int|
        0 <= i < j < groups.len() ==> (#[trigger] groups[i]).issue_number < (
        #[trigger] groups[j]).issue_number
    &&& forall|k: int|
        0 <= k < groups.len() ==> (#[trigger] groups[k]).deletions@ == deletions_of(
            events,
            groups[k].issue_number,
        ) && groups[k].deletions@.len() > 0
    &&& forall|i: int|
        0 <= i < events.len() ==> exists|k: int|
            0 <= k < groups.len() && (#[trigger] groups[k]).issue_number == (
            #[trigger] events[i]).issue_number
}

/// Filtering a sequence with one more element keeps that element exactly
/// when the predicate holds of it.
pub proof fn lemma_filter_push<A>(s: Seq<A>, x: A, pred: spec_fn(A) -> bool)
    ensures
        s.push(x).filter(pred) == if pred(x) {
            s.filter(pred).push(x)
        } else {
            s.filter(pred)
        },
{
    reveal(Seq::filter);
    assert(s.push(x).drop_last() =~= s);
}

/// A filter that nothing passes yields the empty sequence.
pub proof fn lemma_filter_none<A>(s: Seq<A>, pred: spec_fn(A) -> bool)
    requires
        forall|i: int| 0 <= i < s.len() ==> !pred(#[trigger] s[i]),
    ensures
        s.filter(pred).len() == 0,
    decreases s.len(),
{
    reveal(Seq::filter);
    if s.len() > 0 {
        assert(!pred(s[s.len() - 1]));
        assert forall|i: int| 0 <= i < s.drop_last().len() implies !pred(
            #[trigger] s.drop_last()[i],
        ) by {
            assert(s.drop_last()[i] == s[i]);
        }
        lemma_filter_none(s.drop_last(), pred);
    }
}

/// The index of the first group whose issue number is not below `issue`.
fn group_position(groups: &Vec<IssueGroup>, issue: u64) -> (k: usize)
    requires
        forall|i: int, j: int|
            0 <= i < j < groups@.len() ==> (#[trigger] groups@[i]).issue_number < (
            #[trigger] groups@[j]).issue_number,
    ensures
        k <= groups.len(),
        forall|i: int| 0 <= i < k ==> (#[trigger] groups@[i]).issue_number < issue,
        forall|i: int| k <= i < groups@.len() ==> (#[trigger] groups@[i]).issue_number >= issue,
{
    let mut k: usize = 0;
    while k < groups.len()
        invariant
            k <= groups.len(),
            forall|i: int| 0 <= i < k ==> (#[trigger] groups@[i]).issue_number < issue,
            forall|i: int, j: int|
                0 <= i < j < groups@.len() ==> (#[trigger] groups@[i]).issue_number < (
                #[trigger] groups@[j]).issue_number,
        decreases groups.len() - k,
    {
        if groups[k].issue_number >= issue {
            return k;
        }
        k = k + 1;
    }
    k
}

/// Puts `event` into the group of its issue, which is made if it is new.
fn add_to_groups(groups: &mut Vec<IssueGroup>, event: DeletedCrashTest, Ghost(events): Ghost<
    Seq<DeletedCrashTest>,
>)
    requires
        is_grouping(old(groups)@, events),
    ensures
        is_grouping(final(groups)@, events.push(event)),
{
    let issue = event.issue_number;
    let k = group_position(groups, issue);
    let ghost before = groups@;
    let ghost after = events.push(event);
    proof {
        assert forall|n: u64| n != issue implies deletions_of(after, n) == deletions_of(
            events,
            n,
        ) by {
            lemma_filter_push(events, event, has_issue(n));
        }
        lemma_filter_push(events, event, has_issue(issue));
    }
    if k < groups.len() && groups[k].issue_number == issue {
        let mut group = groups.remove(k);
        group.deletions.push(event);
        groups.insert(k, group);
        proof {
            assert(groups@.len() == before.len());
            assert forall|i: int| 0 <= i < groups@.len() implies (#[trigger] groups@[i]).issue_number
                == before[i].issue_number by {}
            assert forall|i: int| 0 <= i < after.len() implies exists|g: int|
                0 <= g < groups@.len() && (#[trigger] groups@[g]).issue_number == (
                #[trigger] after[i]).issue_number by {
                if i < events.len() {
                    let g = choose|g: int|
                        0 <= g < before.len() && (#[trigger] before[g]).issue_number
                            == events[i].issue_number;
                    assert(groups@[g].issue_number == after[i].issue_number);
                } else {
                    assert(groups@[k as int].issue_number == after[i].issue_number);
                }
            }
        }
    } else {
        proof {
            assert forall|i: int| 0 <= i < events.len() implies !has_issue(issue)(
                #[trigger] events[i],
            ) by {
                let g = choose|g: int|
                    0 <= g < before.len() && (#[trigger] before[g]).issue_number
                        == events[i].issue_number;
                assert(before[g].issue_number != issue);
            }
            lemma_filter_none(events, has_issue(issue));
            assert(deletions_of(after, issue) =~= seq![event]);
        }
        let mut deletions: Vec<DeletedCrashTest> = Vec::new();
        deletions.push(event);
        groups.insert(k, IssueGroup { issue_number: issue, deletions });
        proof {
            assert forall|i: int, j: int| 0 <= i < j < groups@.len() implies (
            #[trigger] groups@[i]).issue_number < (#[trigger] groups@[j]).issue_number by {
                if i < k && j > k {
                    assert(groups@[i] == before[i]);
                    assert(groups@[j] == before[j - 1]);
                } else if i < k && j < k {
                    assert(groups@[i] == before[i]);
                    assert(groups@[j] == before[j]);
                } else if i > k {
                    assert(groups@[i] == before[i - 1]);
                    assert(groups@[j] == before[j - 1]);
                } else if i == k {
                    assert(groups@[j] == before[j - 1]);
                } else {
                    assert(groups@[i] == before[i]);
                }
            }
            assert forall|g: int| 0 <= g < groups@.len() implies (#[trigger] groups@[g]).deletions@
                == deletions_of(after, groups@[g].issue_number) && groups@[g].deletions@.len()
                > 0 by {
                if g < k {
                    assert(groups@[g] == before[g]);
                } else if g > k {
                    assert(groups@[g] == before[g - 1]);
                }
            }
            assert forall|i: int| 0 <= i < after.len() implies exists|g: int|
                0 <= g < groups@.len() && (#[trigger] groups@[g]).issue_number == (
                #[trigger] after[i]).issue_number by {
                if i < events.len() {
                    let g = choose|g: int|
                        0 <= g < before.len() && (#[trigger] before[g]).issue_number
                            == events[i].issue_number;
                    if g < k {
                        assert(groups@[g] == before[g]);
                    } else {
                        assert(groups@[g + 1] == before[g]);
                    }
                } else {
                    assert(groups@[k as int].issue_number == after[i].issue_number);
                }
            }
        }
    }
}

/// Groups the deletions by issue: one group for each issue that occurs, in
/// ascending order of issue number, the deletions of a group in the order in
/// which they came.
pub fn group_by_issue(events: Vec<DeletedCrashTest>) -> (groups: Vec<IssueGroup>)
    ensures
        is_grouping(groups@, events@),
{
    let mut groups: Vec<IssueGroup> = Vec::new();
    let ghost all = events@;
    let ghost mut seen: Seq<DeletedCrashTest> = Seq::empty();
    for event in it: events
        invariant
            it.seq() == all,
            seen == all.take(it.index() as int),
            is_grouping(groups@, seen),
    {
        add_to_groups(&mut groups, event, Ghost(seen));
        proof {
            assert(all.take(it.index() + 1) =~= seen.push(event));
            seen = seen.push(event);
        }
    }
    proof {
        assert(all.take(all.len() as int) =~= all);
    }
    groups
}

/// What the audit found for one issue.
#[derive(Debug)]
pub struct IssueClassification {
    pub issue_number: u64,
    /// The deletions of this issue's tests, in the order in which they came.
    pub deletions: Vec<DeletedCrashTest>,
    /// How many files of this issue are still present.
    pub remaining_count: usize,
    pub status: IssueStatus,
}

/// The outcome of an audit: one classification for each issue with a deleted
/// test, in ascending order of issue number, and the file counts for the
/// summary.
#[derive(Debug)]
pub struct Classification {
    pub issues: Vec<IssueClassification>,
    /// How many deleted files belong to an issue that is open.
    pub files_with_open_issues: usize,
    /// How many deleted files belong to an issue that is not open.
    pub files_with_closed_issues: usize,
}

/// The predicate that holds of the file names that carry `issue`.
pub open spec fn names_issue(issue: u64) -> spec_fn(String) -> bool {
    |f: String| issue_number_of(f@) == Some(issue)
}

/// How many of `files` carry `issue` in their name.
pub open spec fn remaining_of(files: Seq<String>, issue: u64) -> nat {
    files.filter(names_issue(issue)).len()
}

/// The predicate that holds of the deletions whose issue is in `open`.
pub open spec fn has_open_issue(open: Set<u64>) -> spec_fn(DeletedCrashTest) -> bool {
    |e: DeletedCrashTest| open.contains(e.issue_number)
}

/// The status of an issue of which `remaining` files are left: partial
/// deletion comes first, then the tracker's state decides.
pub open spec fn status_of(remaining: nat, open: bool) -> IssueStatus {
    if remaining > 0 {
        IssueStatus::PartiallyDeleted
    } else if open {
        IssueStatus::FullyDeletedOpen
    } else {
        IssueStatus::FullyDeletedClosed
    }
}

/// Whether `entry` is what the audit says of its issue.
pub open spec fn classifies(
    entry: IssueClassification,
    events: Seq<DeletedCrashTest>,
    open: Set<u64>,
    files: Seq<String>,
) -> bool {
    &&& entry.deletions@ == deletions_of(events, entry.issue_number)
    &&& entry.deletions@.len() > 0
    &&& entry.remaining_count == remaining_of(files, entry.issue_number)
    &&& entry.status == status_of(entry.remaining_count as nat, open.contains(entry.issue_number))
}

/// Whether `issues` is the classification of `events` against the open
/// issues and the files that remain: one entry for each issue that occurs, in
/// ascending order of issue number, each with its deletions, its count of
/// remaining files and its status.
pub open spec fn is_classification(
    issues: Seq<IssueClassification>,
    events: Seq<DeletedCrashTest>,
    open: Set<u64>,
    files: Seq<String>,
) -> bool {
    &&& forall|i: int, j: int|
        0 <= i < j < issues.len() ==> (#[trigger] issues[i]).issue_number < (
        #[trigger] issues[j]).issue_number
    &&& forall|k: int| 0 <= k < issues.len() ==> classifies(#[trigger] issues[k], events, open, files)
    &&& forall|i: int|
        0 <= i < events.len() ==> exists|k: int|
            0 <= k < issues.len() && (#[trigger] issues[k]).issue_number == (
            #[trigger] events[i]).issue_number
}

/// Decides an issue's status from the number of its files that remain and
/// from whether it is open. Files that remain always make it a partial
/// deletion.
pub fn classify_issue(remaining_count: usize, is_open: bool) -> (status: IssueStatus)
    ensures
        status == status_of(remaining_count as nat, is_open),
        remaining_count > 0 ==> status == IssueStatus::PartiallyDeleted,
{
    if remaining_count > 0 {
        IssueStatus::PartiallyDeleted
    } else if is_open {
        IssueStatus::FullyDeletedOpen
    } else {
        IssueStatus::FullyDeletedClosed
    }
}

/// Counts the files among `current_files` whose name carries `issue`.
pub fn count_remaining(current_files: &Vec<String>, issue: u64) -> (n: usize)
    ensures
        n == remaining_of(current_files@, issue),
{
    let mut n: usize = 0;
    let mut i: usize = 0;
    while i < current_files.len()
        invariant
            i <= current_files.len(),
            n <= i,
            n == remaining_of(current_files@.take(i as int), issue),
        decreases current_files.len() - i,
    {
        proof {
            lemma_filter_push(current_files@.take(i as int), current_files@[i as int], names_issue(issue));
            assert(current_files@.take(i + 1) =~= current_files@.take(i as int).push(
                current_files@[i as int],
            ));
        }
        let found = extract_issue_number(current_files[i].as_str());
        match found {
            Some(number) => {
                if number == issue {
                    n = n + 1;
                }
            },
            None => {},
        }
        i = i + 1;
    }
    proof {
        assert(current_files@.take(current_files@.len() as int) =~= current_files@);
    }
    n
}

/// Counts the deletions whose issue is open.
pub fn count_open(events: &Vec<DeletedCrashTest>, open_issues: &HashSet<u64>) -> (n: usize)
    ensures
        n == events@.filter(has_open_issue(open_issues@)).len(),
        n <= events.len(),
{
    broadcast use group_hash_axioms;

    let mut n: usize = 0;
    let mut i: usize = 0;
    while i < events.len()
        invariant
            i <= events.len(),
            n <= i,
            n == events@.take(i as int).filter(has_open_issue(open_issues@)).len(),
        decreases events.len() - i,
    {
        proof {
            lemma_filter_push(events@.take(i as int), events@[i as int], has_open_issue(open_issues@));
            assert(events@.take(i + 1) =~= events@.take(i as int).push(events@[i as int]));
        }
        if open_issues.contains(&events[i].issue_number) {
            n = n + 1;
        }
        i = i + 1;
    }
    proof {
        assert(events@.take(events@.len() as int) =~= events@);
    }
    n
}

/// Classifies every issue that has a deleted crash test. The deletions are
/// grouped by issue; an issue of which a file remains is a partial deletion,
/// one without is fully deleted and open or closed as the snapshot says. The
/// entries come in ascending order of issue number, so the same input always
/// gives the same output.
pub fn classify(
    events: Vec<DeletedCrashTest>,
    open_issues: &HashSet<u64>,
    current_files: &Vec<String>,
) -> (result: Classification)
    ensures
        is_classification(result.issues@, events@, open_issues@, current_files@),
        result.files_with_open_issues == events@.filter(has_open_issue(open_issues@)).len(),
        result.files_with_open_issues + result.files_with_closed_issues == events@.len(),
{
    broadcast use group_hash_axioms;

    let files_with_open_issues = count_open(&events, open_issues);
    let files_with_closed_issues = events.len() - files_with_open_issues;
    let ghost all = events@;
    let groups = group_by_issue(events);
    let ghost grouped = groups@;
    let mut issues: Vec<IssueClassification> = Vec::new();
    for group in it: groups
        invariant
            it.seq() == grouped,
            is_grouping(grouped, all),
            issues@.len() == it.index(),
            forall|k: int|
                0 <= k < issues@.len() ==> (#[trigger] issues@[k]).issue_number
                    == grouped[k].issue_number && classifies(
                    issues@[k],
                    all,
                    open_issues@,
                    current_files@,
                ),
    {
        let issue_number = group.issue_number;
        let remaining_count = count_remaining(current_files, issue_number);
        let is_open = open_issues.contains(&issue_number);
        let status = classify_issue(remaining_count, is_open);
        assert(group == grouped[it.index() as int]);
        issues.push(
            IssueClassification {
                issue_number,
                deletions: group.deletions,
                remaining_count,
                status,
            },
        );
    }
    proof {
        assert forall|i: int| 0 <= i < all.len() implies exists|k: int|
            0 <= k < issues@.len() && (#[trigger] issues@[k]).issue_number == (
            #[trigger] all[i]).issue_number by {
            let k = choose|k: int|
                0 <= k < grouped.len() && (#[trigger] grouped[k]).issue_number
                    == all[i].issue_number;
            assert(issues@[k].issue_number == all[i].issue_number);
        }
    }
    Classification { issues, files_with_open_issues, files_with_closed_issues }
}

/// The issue numbers of the deletions among `events`.
pub open spec fn deleted_issues(events: Seq<DeletedCrashTest>) -> Set<u64> {
    Set::new(|n: u64| is_deleted_issue(events, n))
}

/// The issue numbers that `issues` gives the status `status`.
pub open spec fn bucket(issues: Seq<IssueClassification>, status: IssueStatus) -> Set<u64> {
    Set::new(
        |n: u64|
            exists|k: int|
                0 <= k < issues.len() && (#[trigger] issues[k]).issue_number == n
                    && issues[k].status == status,
    )
}

/// The issue numbers of `issues`, in their order.
pub open spec fn issue_numbers(issues: Seq<IssueClassification>) -> Seq<u64> {
    Seq::new(issues.len(), |k: int| issues[k].issue_number)
}

/// How many deletions the entries of `issues` hold together.
pub open spec fn total_deletions(issues: Seq<IssueClassification>) -> nat
    decreases issues.len(),
{
    if issues.len() == 0 {
        0
    } else {
        total_deletions(issues.drop_last()) + issues.last().deletions@.len()
    }
}

/// Whether `keys` ascends strictly.
pub open spec fn ascending(keys: Seq<u64>) -> bool {
    forall|i: int, j: int| 0 <= i < j < keys.len() ==> #[trigger] keys[i] < #[trigger] keys[j]
}

/// How many deletions among `events` belong to one of `keys`, counted once
/// for each key.
spec fn deletions_under(keys: Seq<u64>, events: Seq<DeletedCrashTest>) -> nat
    decreases keys.len(),
{
    if keys.len() == 0 {
        0
    } else {
        deletions_under(keys.drop_last(), events) + deletions_of(events, keys.last()).len()
    }
}

/// How often `key` occurs in `keys`.
spec fn occurrences(keys: Seq<u64>, key: u64) -> nat
    decreases keys.len(),
{
    if keys.len() == 0 {
        0
    } else {
        occurrences(keys.drop_last(), key) + if keys.last() == key {
            1nat
        } else {
            0nat
        }
    }
}

proof fn lemma_occurs_once(keys: Seq<u64>, key: u64)
    requires
        ascending(keys),
    ensures
        occurrences(keys, key) == if keys.contains(key) {
            1nat
        } else {
            0nat
        },
    decreases keys.len(),
{
    if keys.len() > 0 {
        let rest = keys.drop_last();
        assert forall|i: int, j: int| 0 <= i < j < rest.len() implies #[trigger] rest[i]
            < #[trigger] rest[j] by {
            assert(rest[i] == keys[i] && rest[j] == keys[j]);
        }
        lemma_occurs_once(rest, key);
        if keys.last() == key {
            if rest.contains(key) {
                let i = choose|i: int| 0 <= i < rest.len() && rest[i] == key;
                assert(keys[i] < keys[keys.len() - 1]);
            }
            assert(keys[keys.len() - 1] == key);
        } else if rest.contains(key) {
            let i = choose|i: int| 0 <= i < rest.len() && rest[i] == key;
            assert(keys[i] == key);
        } else if keys.contains(key) {
            let i = choose|i: int| 0 <= i < keys.len() && keys[i] == key;
            assert(rest[i] == key);
        }
    }
}

proof fn lemma_deletions_under_push(keys: Seq<u64>, events: Seq<DeletedCrashTest>, event: DeletedCrashTest)
    ensures
        deletions_under(keys, events.push(event)) == deletions_under(keys, events) + occurrences(
            keys,
            event.issue_number,
        ),
    decreases keys.len(),
{
    if keys.len() > 0 {
        lemma_deletions_under_push(keys.drop_last(), events, event);
        lemma_filter_push(events, event, has_issue(keys.last()));
    }
}

proof fn lemma_deletions_under_all(keys: Seq<u64>, events: Seq<DeletedCrashTest>)
    requires
        ascending(keys),
        forall|i: int| 0 <= i < events.len() ==> keys.contains((#[trigger] events[i]).issue_number),
    ensures
        deletions_under(keys, events) == events.len(),
    decreases events.len(),
{
    if events.len() == 0 {
        lemma_deletions_under_none(keys, events);
    } else {
        let rest = events.drop_last();
        assert forall|i: int| 0 <= i < rest.len() implies keys.contains(
            (#[trigger] rest[i]).issue_number,
        ) by {
            assert(rest[i] == events[i]);
        }
        lemma_deletions_under_all(keys, rest);
        assert(rest.push(events.last()) =~= events);
        lemma_deletions_under_push(keys, rest, events.last());
        lemma_occurs_once(keys, events.last().issue_number);
        assert(keys.contains(events[events.len() - 1].issue_number));
    }
}

proof fn lemma_deletions_under_none(keys: Seq<u64>, events: Seq<DeletedCrashTest>)
    requires
        events.len() == 0,
    ensures
        deletions_under(keys, events) == 0,
    decreases keys.len(),
{
    if keys.len() > 0 {
        lemma_deletions_under_none(keys.drop_last(), events);
        lemma_filter_none(events, has_issue(keys.last()));
    }
}

proof fn lemma_total_is_deletions_under(
    issues: Seq<IssueClassification>,
    events: Seq<DeletedCrashTest>,
)
    requires
        forall|k: int|
            0 <= k < issues.len() ==> (#[trigger] issues[k]).deletions@ == deletions_of(
                events,
                issues[k].issue_number,
            ),
    ensures
        total_deletions(issues) == deletions_under(issue_numbers(issues), events),
    decreases issues.len(),
{
    if issues.len() > 0 {
        let rest = issues.drop_last();
        assert forall|k: int| 0 <= k < rest.len() implies (#[trigger] rest[k]).deletions@
            == deletions_of(events, rest[k].issue_number) by {
            assert(rest[k] == issues[k]);
        }
        lemma_total_is_deletions_under(rest, events);
        assert(issue_numbers(issues).drop_last() =~= issue_numbers(rest));
        assert(issue_numbers(issues).last() == issues[issues.len() - 1].issue_number);
    }
}

/// Two strictly ascending sequences that hold the same numbers are equal.
proof fn lemma_same_keys(a: Seq<u64>, b: Seq<u64>)
    requires
        ascending(a),
        ascending(b),
        forall|i: int| 0 <= i < a.len() ==> b.contains(#[trigger] a[i]),
        forall|j: int| 0 <= j < b.len() ==> a.contains(#[trigger] b[j]),
    ensures
        a == b,
    decreases a.len(),
{
    if a.len() == 0 {
        if b.len() > 0 {
            assert(a.contains(b[0]));
        }
        assert(a =~= b);
    } else {
        let top = a.len() - 1;
        assert(b.contains(a[top]));
        let jb = choose|j: int| 0 <= j < b.len() && b[j] == a[top];
        let last = b.len() - 1;
        assert(a.contains(b[last]));
        let ia = choose|i: int| 0 <= i < a.len() && a[i] == b[last];
        assert(a[top] == b[last]) by {
            if jb < last {
                assert(b[jb] < b[last]);
            }
            if ia < top {
                assert(a[ia] < a[top]);
            }
        }
        let ra = a.drop_last();
        let rb = b.drop_last();
        assert forall|i: int| 0 <= i < ra.len() implies rb.contains(#[trigger] ra[i]) by {
            assert(ra[i] == a[i]);
            assert(b.contains(a[i]));
            let j = choose|j: int| 0 <= j < b.len() && b[j] == a[i];
            assert(a[i] < a[top]);
            assert(rb[j] == a[i]);
        }
        assert forall|j: int| 0 <= j < rb.len() implies ra.contains(#[trigger] rb[j]) by {
            assert(rb[j] == b[j]);
            assert(a.contains(b[j]));
            let i = choose|i: int| 0 <= i < a.len() && a[i] == b[j];
            assert(b[j] < b[last]);
            assert(ra[i] == b[j]);
        }
        assert forall|i: int, j: int| 0 <= i < j < ra.len() implies #[trigger] ra[i]
            < #[trigger] ra[j] by {
            assert(ra[i] == a[i] && ra[j] == a[j]);
        }
        assert forall|i: int, j: int| 0 <= i < j < rb.len() implies #[trigger] rb[i]
            < #[trigger] rb[j] by {
            assert(rb[i] == b[i] && rb[j] == b[j]);
        }
        lemma_same_keys(ra, rb);
        assert(a =~= ra.push(a[top]));
        assert(b =~= rb.push(b[last]));
    }
}

/// The issue numbers of a classification ascend and are those of the
/// deletions.
proof fn lemma_issue_numbers(
    issues: Seq<IssueClassification>,
    events: Seq<DeletedCrashTest>,
    open: Set<u64>,
    files: Seq<String>,
)
    requires
        is_classification(issues, events, open, files),
    ensures
        ascending(issue_numbers(issues)),
        forall|n: u64|
            #![trigger issue_numbers(issues).contains(n)]
            #![trigger is_deleted_issue(events, n)]
            issue_numbers(issues).contains(n) <==> is_deleted_issue(events, n),
{
    let keys = issue_numbers(issues);
    assert forall|i: int, j: int| 0 <= i < j < keys.len() implies #[trigger] keys[i]
        < #[trigger] keys[j] by {
        assert(issues[i].issue_number < issues[j].issue_number);
    }
    assert forall|n: u64| keys.contains(n) implies is_deleted_issue(events, n) by {
        let k = choose|k: int| 0 <= k < keys.len() && keys[k] == n;
        assert(classifies(issues[k], events, open, files));
        let first = issues[k].deletions@[0];
        events.lemma_filter_pred(has_issue(n), 0);
        events.lemma_filter_contains_rev(has_issue(n), first);
        let i = choose|i: int| 0 <= i < events.len() && events[i] == first;
        assert(events[i].issue_number == n);
    }
    assert forall|n: u64| is_deleted_issue(events, n) implies keys.contains(n) by {
        let i = choose|i: int| 0 <= i < events.len() && (#[trigger] events[i]).issue_number == n;
        let k = choose|k: int|
            0 <= k < issues.len() && (#[trigger] issues[k]).issue_number == events[i].issue_number;
        assert(keys[k] == n);
    }
}

/// Each entry holds only deletions of its own issue, and each of them is one
/// of the deletions that were handed in.
pub proof fn lemma_entries_hold_own_deletions(
    issues: Seq<IssueClassification>,
    events: Seq<DeletedCrashTest>,
    open: Set<u64>,
    files: Seq<String>,
)
    requires
        is_classification(issues, events, open, files),
    ensures
        forall|k: int, j: int|
            0 <= k < issues.len() && 0 <= j < issues[k].deletions@.len() ==> (
            #[trigger] issues[k].deletions@[j]).issue_number == issues[k].issue_number
                && events.contains(issues[k].deletions@[j]),
{
    assert forall|k: int, j: int|
        0 <= k < issues.len() && 0 <= j < issues[k].deletions@.len() implies (
    #[trigger] issues[k].deletions@[j]).issue_number == issues[k].issue_number && events.contains(
        issues[k].deletions@[j],
    ) by {
        assert(classifies(issues[k], events, open, files));
        let pred = has_issue(issues[k].issue_number);
        events.lemma_filter_pred(pred, j);
        assert(events.filter(pred).contains(events.filter(pred)[j]));
        events.lemma_filter_contains_rev(pred, issues[k].deletions@[j]);
    }
}

/// Grouping is total and exhaustive: each deletion stands in the entry of
/// its issue and in no other entry.
pub proof fn lemma_every_deletion_in_one_entry(
    issues: Seq<IssueClassification>,
    events: Seq<DeletedCrashTest>,
    open: Set<u64>,
    files: Seq<String>,
    i: int,
) -> (k: int)
    requires
        is_classification(issues, events, open, files),
        0 <= i < events.len(),
    ensures
        0 <= k < issues.len(),
        issues[k].issue_number == events[i].issue_number,
        issues[k].deletions@.contains(events[i]),
        forall|other: int|
            0 <= other < issues.len() && other != k ==> !(
            #[trigger] issues[other]).deletions@.contains(events[i]),
{
    let k = choose|k: int|
        0 <= k < issues.len() && (#[trigger] issues[k]).issue_number == events[i].issue_number;
    assert(classifies(issues[k], events, open, files));
    events.lemma_filter_contains(has_issue(issues[k].issue_number), i);
    lemma_entries_hold_own_deletions(issues, events, open, files);
    assert forall|other: int| 0 <= other < issues.len() && other != k implies !(
    #[trigger] issues[other]).deletions@.contains(events[i]) by {
        if issues[other].deletions@.contains(events[i]) {
            let j = choose|j: int|
                0 <= j < issues[other].deletions@.len() && issues[other].deletions@[j]
                    == events[i];
            assert(issues[other].deletions@[j].issue_number == issues[other].issue_number);
            if other < k {
                assert(issues[other].issue_number < issues[k].issue_number);
            } else {
                assert(issues[k].issue_number < issues[other].issue_number);
            }
        }
    }
    k
}

/// The entries together hold exactly as many deletions as were handed in:
/// none is lost and none stands twice.
pub proof fn lemma_entries_hold_every_deletion_once(
    issues: Seq<IssueClassification>,
    events: Seq<DeletedCrashTest>,
    open: Set<u64>,
    files: Seq<String>,
)
    requires
        is_classification(issues, events, open, files),
    ensures
        total_deletions(issues) == events.len(),
{
    lemma_issue_numbers(issues, events, open, files);
    let keys = issue_numbers(issues);
    assert forall|k: int| 0 <= k < issues.len() implies (#[trigger] issues[k]).deletions@
        == deletions_of(events, issues[k].issue_number) by {
        assert(classifies(issues[k], events, open, files));
    }
    lemma_total_is_deletions_under(issues, events);
    assert forall|i: int| 0 <= i < events.len() implies keys.contains(
        (#[trigger] events[i]).issue_number,
    ) by {
        assert(is_deleted_issue(events, events[i].issue_number));
    }
    lemma_deletions_under_all(keys, events);
}

/// Classification is a partition: no issue has two statuses, and the three
/// statuses together cover exactly the issues of the deletions.
pub proof fn lemma_buckets_partition(
    issues: Seq<IssueClassification>,
    events: Seq<DeletedCrashTest>,
    open: Set<u64>,
    files: Seq<String>,
)
    requires
        is_classification(issues, events, open, files),
    ensures
        bucket(issues, IssueStatus::FullyDeletedOpen).disjoint(
            bucket(issues, IssueStatus::FullyDeletedClosed),
        ),
        bucket(issues, IssueStatus::FullyDeletedOpen).disjoint(
            bucket(issues, IssueStatus::PartiallyDeleted),
        ),
        bucket(issues, IssueStatus::FullyDeletedClosed).disjoint(
            bucket(issues, IssueStatus::PartiallyDeleted),
        ),
        bucket(issues, IssueStatus::FullyDeletedOpen).union(
            bucket(issues, IssueStatus::FullyDeletedClosed),
        ).union(bucket(issues, IssueStatus::PartiallyDeleted)) == deleted_issues(events),
{
    assert forall|n: u64, s: IssueStatus, t: IssueStatus|
        bucket(issues, s).contains(n) && bucket(issues, t).contains(n) implies s == t by {
        let k = choose|k: int|
            0 <= k < issues.len() && (#[trigger] issues[k]).issue_number == n && issues[k].status
                == s;
        let m = choose|m: int|
            0 <= m < issues.len() && (#[trigger] issues[m]).issue_number == n && issues[m].status
                == t;
        if k < m {
            assert(issues[k].issue_number < issues[m].issue_number);
        } else if m < k {
            assert(issues[m].issue_number < issues[k].issue_number);
        }
    }
    lemma_issue_numbers(issues, events, open, files);
    let keys = issue_numbers(issues);
    let all = bucket(issues, IssueStatus::FullyDeletedOpen).union(
        bucket(issues, IssueStatus::FullyDeletedClosed),
    ).union(bucket(issues, IssueStatus::PartiallyDeleted));
    assert forall|n: u64| all.contains(n) <==> deleted_issues(events).contains(n) by {
        if all.contains(n) {
            let k = choose|k: int| 0 <= k < issues.len() && (#[trigger] issues[k]).issue_number == n;
            assert(keys[k] == n);
        }
        if deleted_issues(events).contains(n) {
            assert(keys.contains(n));
            let k = choose|k: int| 0 <= k < keys.len() && keys[k] == n;
            assert(issues[k].issue_number == n);
            assert(bucket(issues, issues[k].status).contains(n));
        }
    }
    assert(all =~= deleted_issues(events));
}

/// An issue of which a file remains is a partial deletion, whether it is
/// open or closed, and no other issue is.
pub proof fn lemma_remaining_files_mean_partial(remaining: nat, open: bool)
    ensures
        remaining > 0 ==> status_of(remaining, open) == IssueStatus::PartiallyDeleted,
        status_of(remaining, open) == IssueStatus::PartiallyDeleted ==> remaining > 0,
{
}

/// In a classification an entry is a partial deletion exactly when a file of
/// its issue remains, whether the issue is open or not.
pub proof fn lemma_partial_exactly_when_files_remain(
    issues: Seq<IssueClassification>,
    events: Seq<DeletedCrashTest>,
    open: Set<u64>,
    files: Seq<String>,
    k: int,
)
    requires
        is_classification(issues, events, open, files),
        0 <= k < issues.len(),
    ensures
        issues[k].status == IssueStatus::PartiallyDeleted <==> remaining_of(
            files,
            issues[k].issue_number,
        ) > 0,
        issues[k].status == IssueStatus::FullyDeletedOpen <==> remaining_of(
            files,
            issues[k].issue_number,
        ) == 0 && open.contains(issues[k].issue_number),
{
    assert(classifies(issues[k], events, open, files));
}

/// Two classifications of the same input are the same, entry by entry and
/// in the same order.
pub proof fn lemma_classification_is_unique(
    first: Seq<IssueClassification>,
    second: Seq<IssueClassification>,
    events: Seq<DeletedCrashTest>,
    open: Set<u64>,
    files: Seq<String>,
)
    requires
        is_classification(first, events, open, files),
        is_classification(second, events, open, files),
    ensures
        first.len() == second.len(),
        forall|k: int|
            0 <= k < first.len() ==> {
                &&& (#[trigger] first[k]).issue_number == second[k].issue_number
                &&& first[k].deletions@ == second[k].deletions@
                &&& first[k].remaining_count == second[k].remaining_count
                &&& first[k].status == second[k].status
            },
{
    lemma_issue_numbers(first, events, open, files);
    lemma_issue_numbers(second, events, open, files);
    let a = issue_numbers(first);
    let b = issue_numbers(second);
    assert forall|i: int| 0 <= i < a.len() implies b.contains(#[trigger] a[i]) by {
        let n = a[i];
        assert(a.contains(n));
        assert(is_deleted_issue(events, n));
    }
    assert forall|j: int| 0 <= j < b.len() implies a.contains(#[trigger] b[j]) by {
        let n = b[j];
        assert(b.contains(n));
        assert(is_deleted_issue(events, n));
    }
    lemma_same_keys(a, b);
    assert forall|k: int| 0 <= k < first.len() implies {
        &&& (#[trigger] first[k]).issue_number == second[k].issue_number
        &&& first[k].deletions@ == second[k].deletions@
        &&& first[k].remaining_count == second[k].remaining_count
        &&& first[k].status == second[k].status
    } by {
        assert(a[k] == b[k]);
        assert(classifies(first[k], events, open, files));
        assert(classifies(second[k], events, open, files));
    }
}

} // verus!
