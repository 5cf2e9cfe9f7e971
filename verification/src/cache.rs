//! The snapshot of open issues as it is kept between runs, and its age.

use vstd::prelude::*;
use vstd::std_specs::hash::group_hash_axioms;
use vstd::std_specs::iter::IteratorSpec;
use vstd::string::StringExecFns;
use std::collections::HashSet;
use std::time::Duration;
use crate::audit::ascending;
use crate::text::{decimal_text, push_decimal};

verus! {

/// An instant: whole seconds since the Unix epoch and the nanoseconds into
/// the second.
#[derive(Clone, Copy, Debug, PartialEq, Eq, Structural)]
pub struct Timestamp {
    pub secs: i64,
    pub nanos: u32,
}

/// The open issues as they were at `timestamp`: their count and their
/// numbers, ordered and without repetition.
#[derive(Debug)]
pub struct CachedIssues {
    pub timestamp: Timestamp,
    pub issue_count: usize,
    pub issue_numbers: Vec<u64>,
}

/// Where the open issues are taken from.
#[derive(Clone, Copy, Debug, PartialEq, Eq, Structural)]
pub enum SnapshotSource {
    /// The snapshot that was kept.
    Cache,
    /// The tracker; what it gives is kept as the new snapshot.
    Tracker,
}

/// Chooses where the open issues are taken from: from the kept snapshot
/// where there is one and no refresh is asked for, however old it is, else
/// from the tracker.
pub fn choose_snapshot_source(force_refresh: bool, cache_exists: bool) -> (source: SnapshotSource)
    ensures
        source == SnapshotSource::Cache <==> !force_refresh && cache_exists,
{
    if !force_refresh && cache_exists {
        SnapshotSource::Cache
    } else {
        SnapshotSource::Tracker
    }
}

/// The whole seconds that a `Duration` holds.
pub uninterp spec fn duration_secs(duration: Duration) -> u64;

/// `Duration::from_secs` makes a duration of that many whole seconds.
pub assume_specification[ Duration::from_secs ](secs: u64) -> (duration: Duration)
    ensures
        duration_secs(duration) == secs,
;

/// `Duration::as_secs` returns the whole seconds of the duration.
pub assume_specification[ Duration::as_secs ](duration: &Duration) -> (secs: u64)
    ensures
        secs == duration_secs(*duration),
;

/// The whole seconds that have passed from `then` to `now`; none when `now`
/// is the earlier one.
pub open spec fn elapsed_seconds(then: Timestamp, now: Timestamp) -> int {
    if now.secs < then.secs || (now.secs == then.secs && now.nanos < then.nanos) {
        0
    } else if now.nanos < then.nanos {
        now.secs - then.secs - 1
    } else {
        now.secs - then.secs
    }
}

/// `n` of a unit: the number, a space and the unit's name, in the plural
/// unless `n` is one.
pub open spec fn counted(n: nat, unit: Seq<char>) -> Seq<char> {
    decimal_text(n) + seq![' '] + unit + if n == 1 {
        Seq::<char>::empty()
    } else {
        seq!['s']
    }
}

/// A span of `secs` seconds in words, in the largest unit that it fills:
/// seconds below a minute, whole minutes below an hour, whole hours below a
/// day, else whole days.
pub open spec fn duration_text(secs: nat) -> Seq<char> {
    if secs < 60 {
        counted(secs, "second"@)
    } else if secs < 3600 {
        counted(secs / 60, "minute"@)
    } else if secs < 86400 {
        counted(secs / 3600, "hour"@)
    } else {
        counted(secs / 86400, "day"@)
    }
}

/// Appends `n` of `unit` to `out`.
fn push_counted(out: &mut String, n: u64, unit: &str)
    ensures
        final(out)@ == old(out)@ + counted(n as nat, unit@),
{
    proof {
        reveal_strlit(" ");
        reveal_strlit("s");
        assert(" "@ =~= seq![' ']);
        assert("s"@ =~= seq!['s']);
    }
    push_decimal(out, n as u128);
    out.append(" ");
    out.append(unit);
    if n != 1 {
        out.append("s");
        assert(out@ =~= old(out)@ + counted(n as nat, unit@));
    } else {
        assert(out@ =~= old(out)@ + counted(n as nat, unit@));
    }
}

/// Writes a span of `secs` seconds in words: `30 seconds`, `1 minute`,
/// `2 hours`, `1 day`.
pub fn format_seconds(secs: u64) -> (text: String)
    ensures
        text@ == duration_text(secs as nat),
{
    let mut text = String::new();
    if secs < 60 {
        push_counted(&mut text, secs, "second");
    } else if secs < 3600 {
        push_counted(&mut text, secs / 60, "minute");
    } else if secs < 86400 {
        push_counted(&mut text, secs / 3600, "hour");
    } else {
        push_counted(&mut text, secs / 86400, "day");
    }
    assert(Seq::<char>::empty() + duration_text(secs as nat) =~= duration_text(secs as nat));
    text
}

/// Formats a duration in words for a reader, by its whole seconds.
pub fn format_duration(duration: Duration) -> (text: String)
    ensures
        text@ == duration_text(duration_secs(duration) as nat),
{
    format_seconds(duration.as_secs())
}

/// Where the snapshot is kept, relative to the working directory.
pub fn cache_path() -> (path: String)
    ensures
        path@ == ".cache/open_issues.json"@,
{
    ".cache/open_issues.json".to_owned()
}

/// Puts `number` into the ascending `numbers`, unless it is there.
fn insert_ascending(numbers: &mut Vec<u64>, number: u64)
    requires
        ascending(old(numbers)@),
    ensures
        ascending(final(numbers)@),
        forall|n: u64| final(numbers)@.contains(n) <==> old(numbers)@.contains(n) || n == number,
        final(numbers)@.len() == old(numbers)@.len() + if old(numbers)@.contains(number) {
            0int
        } else {
            1int
        },
{
    let ghost before = numbers@;
    let mut k: usize = 0;
    while k < numbers.len() && numbers[k] < number
        invariant
            k <= numbers.len(),
            numbers@ == before,
            forall|i: int| 0 <= i < k ==> #[trigger] before[i] < number,
        decreases numbers.len() - k,
    {
        k = k + 1;
    }
    if k < numbers.len() && numbers[k] == number {
        assert(before.contains(number));
    } else {
        assert(!before.contains(number)) by {
            if before.contains(number) {
                let i = choose|i: int| 0 <= i < before.len() && before[i] == number;
                if i > k {
                    assert(before[k as int] < before[i]);
                }
            }
        }
        numbers.insert(k, number);
        let ghost after = numbers@;
        assert forall|i: int, j: int| 0 <= i < j < after.len() implies #[trigger] after[i]
            < #[trigger] after[j] by {
            if j < k {
                assert(after[i] == before[i] && after[j] == before[j]);
            } else if j == k {
                assert(after[i] == before[i]);
            } else if i < k {
                assert(after[i] == before[i] && after[j] == before[j - 1]);
                if k < before.len() {
                    assert(before[k as int] <= before[j - 1]) by {
                        if k < j - 1 {
                            assert(before[k as int] < before[j - 1]);
                        }
                    }
                }
            } else if i == k {
                assert(after[j] == before[j - 1]);
                if k < j - 1 {
                    assert(before[k as int] < before[j - 1]);
                }
            } else {
                assert(after[i] == before[i - 1] && after[j] == before[j - 1]);
            }
        }
        assert forall|n: u64| after.contains(n) <==> before.contains(n) || n == number by {
            if after.contains(n) {
                let i = choose|i: int| 0 <= i < after.len() && after[i] == n;
                if i < k {
                    assert(before[i] == n);
                } else if i > k {
                    assert(before[i - 1] == n);
                }
            }
            if before.contains(n) {
                let i = choose|i: int| 0 <= i < before.len() && before[i] == n;
                if i < k {
                    assert(after[i] == n);
                } else {
                    assert(after[i + 1] == n);
                }
            }
            if n == number {
                assert(after[k as int] == n);
            }
        }
    }
}

impl CachedIssues {
    /// Whether the record is what a snapshot is written as: the numbers
    /// ascend, so none stands twice, and the count is theirs.
    pub open spec fn wf(&self) -> bool {
        ascending(self.issue_numbers@) && self.issue_count == self.issue_numbers@.len()
    }

    /// The record of the open issues `issues` as they were at `timestamp`.
    pub fn from_issues(issues: &HashSet<u64>, timestamp: Timestamp) -> (cached: CachedIssues)
        ensures
            cached.wf(),
            cached.timestamp == timestamp,
            cached.issue_numbers@.to_set() == issues@,
            cached.issue_count == issues@.len(),
    {
        broadcast use group_hash_axioms;

        let mut numbers: Vec<u64> = Vec::new();
        let ghost keys = issues.iter().remaining().unref();
        for number in it: issues.iter()
            invariant
                it.seq().unref() == keys,
                keys.no_duplicates(),
                keys.to_set() == issues@,
                keys.len() == issues@.len(),
                ascending(numbers@),
                numbers@.len() == it.index(),
                forall|n: u64|
                    numbers@.contains(n) <==> keys.take(it.index() as int).contains(n),
        {
            let ghost seen = keys.take(it.index() as int);
            proof {
                assert(keys[it.index() as int] == *number);
                assert(!seen.contains(*number)) by {
                    if seen.contains(*number) {
                        let i = choose|i: int| 0 <= i < seen.len() && seen[i] == *number;
                        assert(keys[i] == keys[it.index() as int]);
                    }
                }
                assert(keys.take(it.index() + 1) =~= seen.push(*number));
                assert forall|n: u64| seen.push(*number).contains(n) <==> seen.contains(n) || n
                    == *number by {
                    if seen.push(*number).contains(n) {
                        let i = choose|i: int|
                            0 <= i < seen.push(*number).len() && seen.push(*number)[i] == n;
                        if i < seen.len() {
                            assert(seen[i] == n);
                        }
                    }
                    if seen.contains(n) {
                        let i = choose|i: int| 0 <= i < seen.len() && seen[i] == n;
                        assert(seen.push(*number)[i] == n);
                    }
                    if n == *number {
                        assert(seen.push(*number)[seen.len() as int] == n);
                    }
                }
            }
            insert_ascending(&mut numbers, *number);
        }
        proof {
            assert(keys.take(keys.len() as int) =~= keys);
            assert forall|n: u64| numbers@.to_set().contains(n) <==> issues@.contains(n) by {
                assert(keys.to_set().contains(n) <==> keys.contains(n));
            }
            assert(numbers@.to_set() =~= issues@);
        }
        let issue_count = numbers.len();
        CachedIssues { timestamp, issue_count, issue_numbers: numbers }
    }

    /// The issue numbers of the record as a set.
    pub fn to_hashset(&self) -> (issues: HashSet<u64>)
        ensures
            issues@ == self.issue_numbers@.to_set(),
    {
        broadcast use group_hash_axioms;

        let mut issues: HashSet<u64> = HashSet::new();
        let mut i: usize = 0;
        while i < self.issue_numbers.len()
            invariant
                i <= self.issue_numbers.len(),
                issues@ == self.issue_numbers@.take(i as int).to_set(),
            decreases self.issue_numbers.len() - i,
        {
            let ghost seen = self.issue_numbers@.take(i as int);
            let number = self.issue_numbers[i];
            issues.insert(number);
            proof {
                assert(self.issue_numbers@.take(i + 1) =~= seen.push(number));
                assert forall|n: u64| seen.push(number).to_set().contains(n) <==> seen.to_set().insert(
                    number,
                ).contains(n) by {
                    if seen.push(number).contains(n) {
                        let k = choose|k: int|
                            0 <= k < seen.push(number).len() && seen.push(number)[k] == n;
                        if k < seen.len() {
                            assert(seen[k] == n);
                        }
                    }
                    if seen.contains(n) {
                        let k = choose|k: int| 0 <= k < seen.len() && seen[k] == n;
                        assert(seen.push(number)[k] == n);
                    }
                    if n == number {
                        assert(seen.push(number)[seen.len() as int] == n);
                    }
                }
                assert(seen.push(number).to_set() =~= seen.to_set().insert(number));
            }
            i = i + 1;
        }
        proof {
            assert(self.issue_numbers@.take(self.issue_numbers@.len() as int)
                =~= self.issue_numbers@);
        }
        issues
    }

    /// How many whole seconds old the record is at `now`; a record from the
    /// future has no age.
    pub fn age_seconds(&self, now: Timestamp) -> (secs: u64)
        ensures
            secs == elapsed_seconds(self.timestamp, now),
    {
        let then = self.timestamp;
        if now.secs < then.secs || (now.secs == then.secs && now.nanos < then.nanos) {
            0
        } else {
            let whole: i128 = now.secs as i128 - then.secs as i128;
            if now.nanos < then.nanos {
                (whole - 1) as u64
            } else {
                whole as u64
            }
        }
    }

    /// How old the record is at `now`, in whole seconds.
    pub fn age(&self, now: Timestamp) -> (age: Duration)
        ensures
            duration_secs(age) == elapsed_seconds(self.timestamp, now),
    {
        Duration::from_secs(self.age_seconds(now))
    }
}

} // verus!
