//! The scan of a history for deleted crash tests, over plain values.

use vstd::prelude::*;
use crate::dates::{CalendarDate, date_of, text_of, date_of_timestamp, date_text};
use crate::git::{
    DeletedCrashTest, DeletionView, RepositoryError, ScanStep, deletion_views, text_views,
    issue_number_of, pr_number_of, extract_issue_number, extract_pr_number,
};

verus! {

/// What the scan reads of one commit of the history: its id, its time in
/// seconds since the epoch, how many parents it has, its message, and the
/// paths that it deleted against its first parent.
#[derive(Debug)]
pub struct CommitRecord {
    pub sha: String,
    pub timestamp: i64,
    pub parent_count: usize,
    pub message: String,
    pub deleted_paths: Vec<String>,
}

/// A commit as plain values.
pub struct CommitView {
    pub sha: Seq<char>,
    pub timestamp: i64,
    pub parent_count: nat,
    pub message: Seq<char>,
    pub deleted_paths: Seq<Seq<char>>,
}

impl View for CommitRecord {
    type V = CommitView;

    open spec fn view(&self) -> CommitView {
        CommitView {
            sha: self.sha@,
            timestamp: self.timestamp,
            parent_count: self.parent_count as nat,
            message: self.message@,
            deleted_paths: text_views(self.deleted_paths@),
        }
    }
}

/// The commits of `history` as plain values.
pub open spec fn commit_views(history: Seq<CommitRecord>) -> Seq<CommitView> {
    Seq::new(history.len(), |i: int| history[i]@)
}

/// What the walk does with a commit.
#[derive(Clone, Copy, Debug, PartialEq, Eq, Structural)]
pub enum WalkAction {
    /// The commit is older than the range: the walk ends here.
    Stop,
    /// The commit is newer than the range, or has no parent to compare with:
    /// the walk passes over it.
    Skip,
    /// The commit is compared with its first parent.
    Examine,
}

/// What the walk does with a commit of the day `date` that has
/// `parent_count` parents. A day before `from` ends the walk, since the
/// history is walked from the newest commit back; a day after `to` is passed
/// over, and so is a commit without a parent.
pub open spec fn action_of(
    date: CalendarDate,
    from: Option<CalendarDate>,
    to: Option<CalendarDate>,
    parent_count: nat,
) -> WalkAction {
    if from is Some && date.before(from->0) {
        WalkAction::Stop
    } else if to is Some && (to->0).before(date) {
        WalkAction::Skip
    } else if parent_count == 0 {
        WalkAction::Skip
    } else {
        WalkAction::Examine
    }
}

/// The deletion that is recorded for `path`, if its name carries an issue
/// number.
pub open spec fn deletion_of(
    path: Seq<char>,
    sha: Seq<char>,
    date: Seq<char>,
    message: Seq<char>,
) -> Option<DeletionView> {
    match issue_number_of(path) {
        Some(number) => Some(
            DeletionView {
                file_path: path,
                issue_number: number,
                commit_sha: sha,
                commit_date: date,
                pr_number: pr_number_of(message),
            },
        ),
        None => None,
    }
}

/// The deletions that are recorded for `paths`, in their order: one for each
/// path whose name carries an issue number.
pub open spec fn deletions_in(
    paths: Seq<Seq<char>>,
    sha: Seq<char>,
    date: Seq<char>,
    message: Seq<char>,
) -> Seq<DeletionView>
    decreases paths.len(),
{
    if paths.len() == 0 {
        Seq::empty()
    } else {
        let rest = deletions_in(paths.drop_last(), sha, date, message);
        match deletion_of(paths.last(), sha, date, message) {
            Some(event) => rest.push(event),
            None => rest,
        }
    }
}

/// How far a scan has come.
pub enum ScanProgress {
    /// The next commit will be looked at.
    Walking,
    /// A commit older than the range was met: no further commit counts.
    Stopped,
    /// A commit's time is no valid date: the scan has failed.
    Failed,
}

/// The deletions found so far, and whether the scan goes on.
pub struct ScanState {
    pub events: Seq<DeletionView>,
    pub progress: ScanProgress,
}

/// The state in which a scan starts.
pub open spec fn scan_start() -> ScanState {
    ScanState { events: Seq::empty(), progress: ScanProgress::Walking }
}

/// The state after `commit`, met in the state `state`.
pub open spec fn scan_step(
    state: ScanState,
    commit: CommitView,
    from: Option<CalendarDate>,
    to: Option<CalendarDate>,
) -> ScanState {
    if !(state.progress is Walking) {
        state
    } else {
        match date_of(commit.timestamp) {
            None => ScanState { events: state.events, progress: ScanProgress::Failed },
            Some(date) => match action_of(date, from, to, commit.parent_count) {
                WalkAction::Stop => ScanState {
                    events: state.events,
                    progress: ScanProgress::Stopped,
                },
                WalkAction::Skip => state,
                WalkAction::Examine => match text_of(date) {
                    None => ScanState { events: state.events, progress: ScanProgress::Failed },
                    Some(text) => ScanState {
                        events: state.events + deletions_in(
                            commit.deleted_paths,
                            commit.sha,
                            text,
                            commit.message,
                        ),
                        progress: ScanProgress::Walking,
                    },
                },
            },
        }
    }
}

/// The state after the commits of `history`, newest first.
pub open spec fn scan_of(
    history: Seq<CommitView>,
    from: Option<CalendarDate>,
    to: Option<CalendarDate>,
) -> ScanState
    decreases history.len(),
{
    if history.len() == 0 {
        scan_start()
    } else {
        scan_step(scan_of(history.drop_last(), from, to), history.last(), from, to)
    }
}

/// Decides what the walk does with a commit.
pub fn commit_action(
    date: CalendarDate,
    from: Option<CalendarDate>,
    to: Option<CalendarDate>,
    parent_count: usize,
) -> (action: WalkAction)
    ensures
        action == action_of(date, from, to, parent_count as nat),
{
    let too_old = match from {
        Some(first) => date.is_before(&first),
        None => false,
    };
    let too_new = match to {
        Some(last) => last.is_before(&date),
        None => false,
    };
    if too_old {
        WalkAction::Stop
    } else if too_new {
        WalkAction::Skip
    } else if parent_count == 0 {
        WalkAction::Skip
    } else {
        WalkAction::Examine
    }
}

/// Appends to `events` the deletions that are recorded for `paths`, deleted
/// by the commit `sha` of the day written `date` with the message
/// `message`. A path whose name carries no issue number leaves no trace.
pub fn collect_deletions(
    events: &mut Vec<DeletedCrashTest>,
    paths: &Vec<String>,
    sha: &str,
    date: &str,
    message: &str,
)
    ensures
        deletion_views(final(events)@) == deletion_views(old(events)@) + deletions_in(
            text_views(paths@),
            sha@,
            date@,
            message@,
        ),
{
    let ghost before = deletion_views(events@);
    let ghost all = text_views(paths@);
    let pr_number = extract_pr_number(message);
    let mut i: usize = 0;
    proof {
        assert(all.take(0) =~= Seq::<Seq<char>>::empty());
        assert(before + Seq::<DeletionView>::empty() =~= before);
    }
    while i < paths.len()
        invariant
            i <= paths.len(),
            all == text_views(paths@),
            pr_number == pr_number_of(message@),
            deletion_views(events@) == before + deletions_in(
                all.take(i as int),
                sha@,
                date@,
                message@,
            ),
        decreases paths.len() - i,
    {
        let ghost seen = deletions_in(all.take(i as int), sha@, date@, message@);
        proof {
            assert(all.take(i + 1).drop_last() =~= all.take(i as int));
            assert(all.take(i + 1).last() == paths@[i as int]@);
        }
        let path = paths[i].as_str();
        match extract_issue_number(path) {
            Some(issue_number) => {
                let ghost old_events = events@;
                let event = DeletedCrashTest {
                    file_path: path.to_owned(),
                    issue_number,
                    commit_sha: sha.to_owned(),
                    commit_date: date.to_owned(),
                    pr_number,
                };
                events.push(event);
                proof {
                    assert(deletion_views(events@) =~= deletion_views(old_events).push(event@));
                    assert(deletion_of(path@, sha@, date@, message@) == Some(event@));
                    assert((before + seen).push(event@) =~= before + seen.push(event@));
                }
            },
            None => {},
        }
        i = i + 1;
    }
    proof {
        assert(all.take(all.len() as int) =~= all);
    }
}

/// Scans a history that is given as plain values, newest commit first, for
/// deleted crash tests. A commit dated before `from` ends the scan, one dated
/// after `to` is passed over, and so is one without a parent; every other
/// commit contributes its deleted paths whose names carry an issue number, in
/// their order. A timestamp that is no valid date fails the scan.
pub fn scan_history(
    history: &Vec<CommitRecord>,
    from: Option<CalendarDate>,
    to: Option<CalendarDate>,
) -> (r: Result<Vec<DeletedCrashTest>, RepositoryError>)
    ensures
        match r {
            Ok(events) => !(scan_of(commit_views(history@), from, to).progress is Failed)
                && deletion_views(events@) == scan_of(commit_views(history@), from, to).events,
            Err(error) => scan_of(commit_views(history@), from, to).progress is Failed
                && error.step == ScanStep::InvalidTimestamp,
        },
{
    let ghost all = commit_views(history@);
    let mut events: Vec<DeletedCrashTest> = Vec::new();
    let mut i: usize = 0;
    proof {
        assert(all.take(0) =~= Seq::<CommitView>::empty());
        assert(deletion_views(events@) =~= Seq::<DeletionView>::empty());
    }
    while i < history.len()
        invariant
            i <= history.len(),
            all == commit_views(history@),
            scan_of(all.take(i as int), from, to) == (ScanState {
                events: deletion_views(events@),
                progress: ScanProgress::Walking,
            }),
        decreases history.len() - i,
    {
        let commit = &history[i];
        proof {
            assert(all.take(i + 1).drop_last() =~= all.take(i as int));
            assert(all.take(i + 1).last() == commit@);
            lemma_scan_halted(all.take(i + 1), all, from, to);
        }
        let date = match date_of_timestamp(commit.timestamp) {
            Some(date) => date,
            None => {
                return Err(
                    RepositoryError {
                        step: ScanStep::InvalidTimestamp,
                        detail: commit.sha.clone(),
                    },
                );
            },
        };
        match commit_action(date, from, to, commit.parent_count) {
            WalkAction::Stop => {
                return Ok(events);
            },
            WalkAction::Skip => {},
            WalkAction::Examine => {
                let text = match date_text(date) {
                    Some(text) => text,
                    None => {
                        return Err(
                            RepositoryError {
                                step: ScanStep::InvalidTimestamp,
                                detail: commit.sha.clone(),
                            },
                        );
                    },
                };
                collect_deletions(
                    &mut events,
                    &commit.deleted_paths,
                    commit.sha.as_str(),
                    text.as_str(),
                    commit.message.as_str(),
                );
            },
        }
        i = i + 1;
    }
    proof {
        assert(all.take(all.len() as int) =~= all);
    }
    Ok(events)
}

/// A scan that has stopped or failed after the first commits of a history
/// ends in that very state, whatever the later commits are.
pub proof fn lemma_scan_halted(
    prefix: Seq<CommitView>,
    history: Seq<CommitView>,
    from: Option<CalendarDate>,
    to: Option<CalendarDate>,
)
    requires
        prefix.len() <= history.len(),
        prefix == history.take(prefix.len() as int),
    ensures
        !(scan_of(prefix, from, to).progress is Walking) ==> scan_of(history, from, to) == scan_of(
            prefix,
            from,
            to,
        ),
    decreases history.len(),
{
    if prefix.len() < history.len() {
        assert(history.drop_last().take(prefix.len() as int) =~= prefix);
        lemma_scan_halted(prefix, history.drop_last(), from, to);
    } else {
        assert(history.take(history.len() as int) =~= history);
    }
}

/// Whether the scan of `history` succeeds and finds `events`.
pub open spec fn scans_to(
    history: Seq<CommitView>,
    from: Option<CalendarDate>,
    to: Option<CalendarDate>,
    events: Seq<DeletionView>,
) -> bool {
    !(scan_of(history, from, to).progress is Failed) && scan_of(history, from, to).events == events
}

/// Whether the scan of `history` fails.
pub open spec fn scan_fails(
    history: Seq<CommitView>,
    from: Option<CalendarDate>,
    to: Option<CalendarDate>,
) -> bool {
    scan_of(history, from, to).progress is Failed
}

/// Whether some history, scanned with these bounds, gives `events`.
pub open spec fn is_scan_result(
    events: Seq<DeletionView>,
    from: Option<CalendarDate>,
    to: Option<CalendarDate>,
) -> bool {
    exists|history: Seq<CommitView>| scans_to(history, from, to, events)
}

/// Whether the scan of some history fails with these bounds.
pub open spec fn some_scan_fails(from: Option<CalendarDate>, to: Option<CalendarDate>) -> bool {
    exists|history: Seq<CommitView>| scan_fails(history, from, to)
}

/// Whether `date` lies in the range: not before `from` and not after `to`,
/// where they are given.
pub open spec fn in_range(
    date: CalendarDate,
    from: Option<CalendarDate>,
    to: Option<CalendarDate>,
) -> bool {
    !(from is Some && date.before(from->0)) && !(to is Some && (to->0).before(date))
}

/// Whether `event` records that `commit`, dated in the range, deleted one of
/// its paths whose name carries the event's issue number.
pub open spec fn records_deletion_by(
    event: DeletionView,
    commit: CommitView,
    from: Option<CalendarDate>,
    to: Option<CalendarDate>,
) -> bool {
    &&& date_of(commit.timestamp) is Some
    &&& in_range(date_of(commit.timestamp)->0, from, to)
    &&& commit.parent_count > 0
    &&& text_of(date_of(commit.timestamp)->0) == Some(event.commit_date)
    &&& commit.deleted_paths.contains(event.file_path)
    &&& issue_number_of(event.file_path) == Some(event.issue_number)
    &&& event.commit_sha == commit.sha
    &&& event.pr_number == pr_number_of(commit.message)
}

/// Each deletion recorded for `paths` is that of one of the paths, with the
/// issue number of its name.
pub proof fn lemma_deletions_in(
    paths: Seq<Seq<char>>,
    sha: Seq<char>,
    date: Seq<char>,
    message: Seq<char>,
)
    ensures
        forall|j: int|
            0 <= j < deletions_in(paths, sha, date, message).len() ==> {
                let event = #[trigger] deletions_in(paths, sha, date, message)[j];
                &&& paths.contains(event.file_path)
                &&& issue_number_of(event.file_path) == Some(event.issue_number)
                &&& event.commit_sha == sha
                &&& event.commit_date == date
                &&& event.pr_number == pr_number_of(message)
            },
    decreases paths.len(),
{
    if paths.len() > 0 {
        let rest = paths.drop_last();
        lemma_deletions_in(rest, sha, date, message);
        let found = deletions_in(paths, sha, date, message);
        let earlier = deletions_in(rest, sha, date, message);
        assert forall|j: int| 0 <= j < found.len() implies {
            let event = #[trigger] found[j];
            &&& paths.contains(event.file_path)
            &&& issue_number_of(event.file_path) == Some(event.issue_number)
            &&& event.commit_sha == sha
            &&& event.commit_date == date
            &&& event.pr_number == pr_number_of(message)
        } by {
            if j < earlier.len() {
                assert(found[j] == earlier[j]);
                let at = choose|at: int| 0 <= at < rest.len() && rest[at] == earlier[j].file_path;
                assert(paths[at] == rest[at]);
            } else {
                assert(paths[paths.len() - 1] == paths.last());
            }
        }
    }
}

/// Date filtering, the lower bound: the first commit dated before `from`
/// ends the scan. Nothing of it or of any later commit in the walk is
/// recorded: the result is what the commits before it gave.
pub proof fn lemma_scan_stops_at_old_commit(
    history: Seq<CommitView>,
    from: Option<CalendarDate>,
    to: Option<CalendarDate>,
    k: int,
)
    requires
        0 <= k < history.len(),
        scan_of(history.take(k), from, to).progress is Walking,
        date_of(history[k].timestamp) is Some,
        from is Some,
        (date_of(history[k].timestamp)->0).before(from->0),
    ensures
        scan_of(history, from, to).progress is Stopped,
        scan_of(history, from, to).events == scan_of(history.take(k), from, to).events,
{
    let prefix = history.take(k + 1);
    assert(prefix.drop_last() =~= history.take(k));
    assert(prefix.last() == history[k]);
    lemma_scan_halted(prefix, history, from, to);
}

/// Date filtering, the upper bound: a commit dated after `to`, and not
/// before `from`, is passed over. The commits behind it are scanned as if it
/// had not been there.
pub proof fn lemma_scan_skips_new_commit(
    newer: Seq<CommitView>,
    commit: CommitView,
    older: Seq<CommitView>,
    from: Option<CalendarDate>,
    to: Option<CalendarDate>,
)
    requires
        date_of(commit.timestamp) is Some,
        to is Some,
        (to->0).before(date_of(commit.timestamp)->0),
        !(from is Some && (date_of(commit.timestamp)->0).before(from->0)),
    ensures
        scan_of(newer.push(commit) + older, from, to) == scan_of(newer + older, from, to),
    decreases older.len(),
{
    if older.len() == 0 {
        assert(newer.push(commit) + older =~= newer.push(commit));
        assert(newer + older =~= newer);
        assert(newer.push(commit).drop_last() =~= newer);
    } else {
        lemma_scan_skips_new_commit(newer, commit, older.drop_last(), from, to);
        assert((newer.push(commit) + older).drop_last() =~= newer.push(commit)
            + older.drop_last());
        assert((newer + older).drop_last() =~= newer + older.drop_last());
        assert((newer.push(commit) + older).last() == older.last());
        assert((newer + older).last() == older.last());
    }
}

/// Every deletion that a scan records was made by a commit of the history
/// whose date lies in the range, and carries the issue number of its path.
pub proof fn lemma_scanned_deletions_in_range(
    history: Seq<CommitView>,
    from: Option<CalendarDate>,
    to: Option<CalendarDate>,
)
    ensures
        forall|j: int|
            0 <= j < scan_of(history, from, to).events.len() ==> exists|c: int|
                0 <= c < history.len() && records_deletion_by(
                    #[trigger] scan_of(history, from, to).events[j],
                    #[trigger] history[c],
                    from,
                    to,
                ),
    decreases history.len(),
{
    if history.len() > 0 {
        let rest = history.drop_last();
        let commit = history.last();
        lemma_scanned_deletions_in_range(rest, from, to);
        let before = scan_of(rest, from, to);
        let after = scan_of(history, from, to);
        assert forall|j: int| 0 <= j < after.events.len() implies exists|c: int|
            0 <= c < history.len() && records_deletion_by(
                #[trigger] after.events[j],
                #[trigger] history[c],
                from,
                to,
            ) by {
            if j < before.events.len() {
                assert(after.events[j] == before.events[j]);
                let c = choose|c: int|
                    0 <= c < rest.len() && records_deletion_by(
                        #[trigger] before.events[j],
                        #[trigger] rest[c],
                        from,
                        to,
                    );
                assert(history[c] == rest[c]);
            } else {
                let date = date_of(commit.timestamp)->0;
                let text = text_of(date)->0;
                let found = deletions_in(commit.deleted_paths, commit.sha, text, commit.message);
                lemma_deletions_in(commit.deleted_paths, commit.sha, text, commit.message);
                assert(after.events[j] == found[j - before.events.len()]);
                assert(history[history.len() - 1] == commit);
            }
        }
    }
}

/// Whether the commits come newest first by their dates: none is dated
/// before one that follows it.
pub open spec fn dates_descend(history: Seq<CommitView>) -> bool {
    forall|i: int, j: int|
        0 <= i < j < history.len() ==> {
            &&& date_of(#[trigger] history[i].timestamp) is Some
            &&& date_of(#[trigger] history[j].timestamp) is Some
            &&& !(date_of(history[i].timestamp)->0).before(date_of(history[j].timestamp)->0)
        }
}

/// What the commits of `history` that are dated in the range and have a
/// parent deleted, with no regard to their order: the deletions that a scan
/// without early end would record.
pub open spec fn deletions_in_range(
    history: Seq<CommitView>,
    from: Option<CalendarDate>,
    to: Option<CalendarDate>,
) -> Seq<DeletionView>
    decreases history.len(),
{
    if history.len() == 0 {
        Seq::empty()
    } else {
        let rest = deletions_in_range(history.drop_last(), from, to);
        let commit = history.last();
        match date_of(commit.timestamp) {
            Some(date) => if in_range(date, from, to) && commit.parent_count > 0 && text_of(
                date,
            ) is Some {
                rest + deletions_in(
                    commit.deleted_paths,
                    commit.sha,
                    text_of(date)->0,
                    commit.message,
                )
            } else {
                rest
            },
            None => rest,
        }
    }
}

/// A scan that has stopped has met a commit dated before the start date.
proof fn lemma_stopped_at_old_commit(
    history: Seq<CommitView>,
    from: Option<CalendarDate>,
    to: Option<CalendarDate>,
) -> (k: int)
    requires
        scan_of(history, from, to).progress is Stopped,
    ensures
        0 <= k < history.len(),
        from is Some,
        date_of(history[k].timestamp) is Some,
        (date_of(history[k].timestamp)->0).before(from->0),
    decreases history.len(),
{
    if scan_of(history.drop_last(), from, to).progress is Stopped {
        lemma_stopped_at_old_commit(history.drop_last(), from, to)
    } else {
        history.len() - 1
    }
}

/// Ending the walk early loses nothing where the commits come newest first:
/// a scan that does not fail records exactly the deletions of the commits
/// that are dated in the range and have a parent.
pub proof fn lemma_early_end_loses_nothing(
    history: Seq<CommitView>,
    from: Option<CalendarDate>,
    to: Option<CalendarDate>,
)
    requires
        dates_descend(history),
        !(scan_of(history, from, to).progress is Failed),
    ensures
        scan_of(history, from, to).events == deletions_in_range(history, from, to),
    decreases history.len(),
{
    if history.len() > 0 {
        let rest = history.drop_last();
        let commit = history.last();
        let top = history.len() - 1;
        assert forall|i: int, j: int| 0 <= i < j < rest.len() implies {
            &&& date_of(#[trigger] rest[i].timestamp) is Some
            &&& date_of(#[trigger] rest[j].timestamp) is Some
            &&& !(date_of(rest[i].timestamp)->0).before(date_of(rest[j].timestamp)->0)
        } by {
            assert(rest[i] == history[i] && rest[j] == history[j]);
        }
        lemma_early_end_loses_nothing(rest, from, to);
        let before = scan_of(rest, from, to);
        if before.progress is Stopped {
            let k = lemma_stopped_at_old_commit(rest, from, to);
            assert(rest[k] == history[k]);
            assert(history[top] == commit);
            assert(!(date_of(history[k].timestamp)->0).before(date_of(history[top].timestamp)->0));
            assert(date_of(commit.timestamp) is Some);
            assert((date_of(commit.timestamp)->0).before(from->0));
        } else {
            match date_of(commit.timestamp) {
                Some(date) => {
                    if in_range(date, from, to) && commit.parent_count > 0 {
                        assert(action_of(date, from, to, commit.parent_count)
                            == WalkAction::Examine);
                    }
                },
                None => {},
            }
        }
    }
}

} // verus!
