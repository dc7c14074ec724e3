use vstd::prelude::*;

use crate::error;
use crate::error::{classify_io_error, Error, IoFailure, IoKind};
use crate::path_set::PathSet;
use crate::paths;
use crate::paths::{FilePath, PathModel};
use crate::planner::config;
use crate::planner::config::{BatchConfig, ErrorStrategy, SortOrder};
use crate::planner::dispatcher;
use crate::planner::outcome;
use crate::planner::outcome::OperationOutcome;
use crate::profiler::Entry;
use crate::progress::Progress;

verus! {

/// Whether a rename failed because source and destination are on different devices.
pub fn is_cross_device(failure: &IoFailure) -> (r: bool)
    ensures
        r == (failure.kind == IoKind::CrossesDevices),
{
    match failure.kind {
        IoKind::CrossesDevices => true,
        _ => false,
    }
}

/// What the attempt to move one source by renaming it came to.
#[derive(Debug, Clone, Copy, PartialEq, Eq, Structural)]
pub enum MoveOneOutcome {
    /// The destination already held the same content, and the source was removed.
    Resolved,
    Renamed,
    /// The source has to be copied to another device.
    CrossDevice,
}

/// What is done next to move one source by renaming it.
#[derive(Debug)]
pub enum AttemptStep {
    /// Ask for the size of what is at the destination.
    ProbeDest,
    /// Ask what the source is and how large, where the destination has `dest_size` bytes.
    ProbeSource { dest_size: u64 },
    /// Compare the contents of source and destination.
    CompareContent,
    /// Remove the source, whose content is at the destination already.
    RemoveSource,
    Rename,
    Finished { result: Result<MoveOneOutcome, Error> },
}

/// What a step came to.
#[derive(Debug)]
#[allow(inconsistent_fields)]
pub enum AttemptEvent {
    DestProbed { result: Result<u64, IoFailure> },
    /// Whether the source is a file, and its size.
    SourceProbed { result: Result<(bool, u64), IoFailure> },
    Compared { result: Result<bool, Error> },
    /// The source was removed or renamed, or not.
    Done { result: Result<(), IoFailure> },
}

/// Whether the event is one that the step can come to.
pub open spec fn answers(step: AttemptStep, event: AttemptEvent) -> bool {
    match step {
        AttemptStep::ProbeDest => event is DestProbed,
        AttemptStep::ProbeSource { .. } => event is SourceProbed,
        AttemptStep::CompareContent => event is Compared,
        AttemptStep::RemoveSource => event is Done,
        AttemptStep::Rename => event is Done,
        AttemptStep::Finished { .. } => false,
    }
}

/// The failure of an attempt.
pub open spec fn attempt_failed(error: Error) -> AttemptStep {
    AttemptStep::Finished { result: Err(error) }
}

/// The step that follows `step`.
pub open spec fn following(
    source: FilePath,
    dest: FilePath,
    skip_if_identical: bool,
    step: AttemptStep,
    event: AttemptEvent,
) -> AttemptStep {
    match (step, event) {
        (AttemptStep::ProbeDest, AttemptEvent::DestProbed { result }) => match result {
            Ok(dest_size) => AttemptStep::ProbeSource { dest_size },
            Err(failure) => if failure.kind == IoKind::NotFound {
                AttemptStep::Rename
            } else {
                attempt_failed(error::io_error(failure, dest, 0))
            },
        },
        (AttemptStep::ProbeSource { dest_size }, AttemptEvent::SourceProbed { result }) => match result {
            Ok((is_file, size)) => if !is_file {
                AttemptStep::Rename
            } else if skip_if_identical && size == dest_size {
                AttemptStep::CompareContent
            } else {
                attempt_failed(Error::DestExists { path: dest })
            },
            Err(failure) => attempt_failed(error::io_error(failure, source, 0)),
        },
        (AttemptStep::CompareContent, AttemptEvent::Compared { result }) => match result {
            Ok(true) => AttemptStep::RemoveSource,
            Ok(false) => attempt_failed(Error::DestExists { path: dest }),
            Err(error) => attempt_failed(error),
        },
        (AttemptStep::RemoveSource, AttemptEvent::Done { result }) => match result {
            Ok(_) => AttemptStep::Finished { result: Ok(MoveOneOutcome::Resolved) },
            Err(failure) => attempt_failed(error::io_error(failure, source, 0)),
        },
        (AttemptStep::Rename, AttemptEvent::Done { result }) => match result {
            Ok(_) => AttemptStep::Finished { result: Ok(MoveOneOutcome::Renamed) },
            Err(failure) => if failure.kind == IoKind::CrossesDevices {
                AttemptStep::Finished { result: Ok(MoveOneOutcome::CrossDevice) }
            } else {
                attempt_failed(error::io_error(failure, source, 0))
            },
        },
        _ => step,
    }
}

/// The first step of an attempt.
pub open spec fn first_of(overwrite: bool) -> AttemptStep {
    if overwrite {
        AttemptStep::Rename
    } else {
        AttemptStep::ProbeDest
    }
}

/// The first step of an attempt. A rename replaces an existing file without asking, so
/// without `overwrite` the destination is looked at first.
pub fn first_attempt(overwrite: bool) -> (r: AttemptStep)
    ensures
        r == first_of(overwrite),
{
    if overwrite {
        AttemptStep::Rename
    } else {
        AttemptStep::ProbeDest
    }
}

/// The step that follows `step`, which came to `event`. A directory at the destination is
/// what a directory is moved into, so only a source that is a file meets a conflict there.
pub fn next_attempt(
    source: &FilePath,
    dest: &FilePath,
    skip_if_identical: bool,
    step: AttemptStep,
    event: AttemptEvent,
) -> (r: AttemptStep)
    requires
        answers(step, event),
    ensures
        r == following(*source, *dest, skip_if_identical, step, event),
{
    match (step, event) {
        (AttemptStep::ProbeDest, AttemptEvent::DestProbed { result }) => match result {
            Ok(dest_size) => AttemptStep::ProbeSource { dest_size },
            Err(failure) => match failure.kind {
                IoKind::NotFound => AttemptStep::Rename,
                _ => AttemptStep::Finished {
                    result: Err(classify_io_error(failure, dest.clone(), 0)),
                },
            },
        },
        (AttemptStep::ProbeSource { dest_size }, AttemptEvent::SourceProbed { result }) => match result {
            Ok((is_file, size)) => if !is_file {
                AttemptStep::Rename
            } else if skip_if_identical && size == dest_size {
                AttemptStep::CompareContent
            } else {
                AttemptStep::Finished { result: Err(Error::DestExists { path: dest.clone() }) }
            },
            Err(failure) => AttemptStep::Finished {
                result: Err(classify_io_error(failure, source.clone(), 0)),
            },
        },
        (AttemptStep::CompareContent, AttemptEvent::Compared { result }) => match result {
            Ok(identical) => if identical {
                AttemptStep::RemoveSource
            } else {
                AttemptStep::Finished { result: Err(Error::DestExists { path: dest.clone() }) }
            },
            Err(error) => AttemptStep::Finished { result: Err(error) },
        },
        (AttemptStep::RemoveSource, AttemptEvent::Done { result }) => match result {
            Ok(_) => AttemptStep::Finished { result: Ok(MoveOneOutcome::Resolved) },
            Err(failure) => AttemptStep::Finished {
                result: Err(classify_io_error(failure, source.clone(), 0)),
            },
        },
        (AttemptStep::Rename, AttemptEvent::Done { result }) => match result {
            Ok(_) => AttemptStep::Finished { result: Ok(MoveOneOutcome::Renamed) },
            Err(failure) => if is_cross_device(&failure) {
                AttemptStep::Finished { result: Ok(MoveOneOutcome::CrossDevice) }
            } else {
                AttemptStep::Finished {
                    result: Err(classify_io_error(failure, source.clone(), 0)),
                }
            },
        },
        (step, _) => step,
    }
}

/// Without `overwrite` nothing is renamed over an existing file: the rename comes behind
/// the finding that the destination is missing, or that the source is no file.
pub proof fn lemma_rename_replaces_no_file(
    source: FilePath,
    dest: FilePath,
    skip_if_identical: bool,
    step: AttemptStep,
    event: AttemptEvent,
)
    requires
        answers(step, event),
        following(source, dest, skip_if_identical, step, event) is Rename,
    ensures
        match event {
            AttemptEvent::DestProbed { result } => result matches Err(failure) && failure.kind
                == IoKind::NotFound,
            AttemptEvent::SourceProbed { result } => result matches Ok((is_file, _)) && !is_file,
            _ => false,
        },
{
}

/// A source is removed only where its content was found at the destination.
pub proof fn lemma_source_is_removed_only_if_identical(
    source: FilePath,
    dest: FilePath,
    skip_if_identical: bool,
    step: AttemptStep,
    event: AttemptEvent,
)
    requires
        answers(step, event),
        following(source, dest, skip_if_identical, step, event) is RemoveSource,
    ensures
        event matches AttemptEvent::Compared { result } && result matches Ok(true),
{
}

/// An attempt succeeds only by what was done: it reports a rename exactly behind a rename
/// that was made, a source whose content was there already exactly behind its removal, and
/// another device exactly behind a rename that failed for that reason.
pub proof fn lemma_attempt_reports_what_was_done(
    source: FilePath,
    dest: FilePath,
    skip_if_identical: bool,
    step: AttemptStep,
    event: AttemptEvent,
)
    requires
        answers(step, event),
    ensures
        ({
            let next = following(source, dest, skip_if_identical, step, event);
            &&& next == (AttemptStep::Finished { result: Ok(MoveOneOutcome::Renamed) })
                <==> step is Rename && (event matches AttemptEvent::Done { result } && result is Ok)
            &&& next == (AttemptStep::Finished { result: Ok(MoveOneOutcome::Resolved) })
                <==> step is RemoveSource && (event matches AttemptEvent::Done { result } && result is Ok)
            &&& next == (AttemptStep::Finished { result: Ok(MoveOneOutcome::CrossDevice) })
                <==> step is Rename && (event matches AttemptEvent::Done { result: Err(failure) }
                && failure.kind == IoKind::CrossesDevices)
        }),
{
}

/// No failure is passed over: it ends the attempt with the error that it stands for, at the
/// path that was looked at or changed. Only a destination that is missing lets the rename go
/// on, and only a rename across devices lets a copy follow.
pub proof fn lemma_attempt_passes_over_no_failure(
    source: FilePath,
    dest: FilePath,
    skip_if_identical: bool,
    step: AttemptStep,
    event: AttemptEvent,
)
    requires
        answers(step, event),
    ensures
        ({
            let next = following(source, dest, skip_if_identical, step, event);
            match event {
                AttemptEvent::Done { result: Err(failure) } => step is Rename && failure.kind
                    == IoKind::CrossesDevices || next == (AttemptStep::Finished {
                    result: Err(error::io_error(failure, source, 0)),
                }),
                AttemptEvent::SourceProbed { result: Err(failure) } => next == (
                AttemptStep::Finished { result: Err(error::io_error(failure, source, 0)) }),
                AttemptEvent::DestProbed { result: Err(failure) } => if failure.kind
                    == IoKind::NotFound {
                    next is Rename
                } else {
                    next == (AttemptStep::Finished {
                        result: Err(error::io_error(failure, dest, 0)),
                    })
                },
                AttemptEvent::Compared { result: Err(error) } => next == (AttemptStep::Finished {
                    result: Err(error),
                }),
                _ => true,
            }
        }),
{
}

/// A file is never moved over an existing file that differs: another size, another content,
/// or the wish not to skip identical ones ends the attempt with the conflict. A source that
/// is no file meets none.
pub proof fn lemma_different_file_is_a_conflict(
    source: FilePath,
    dest: FilePath,
    skip_if_identical: bool,
    dest_size: u64,
    is_file: bool,
    size: u64,
)
    ensures
        ({
            let next = following(
                source,
                dest,
                skip_if_identical,
                AttemptStep::ProbeSource { dest_size },
                AttemptEvent::SourceProbed { result: Ok((is_file, size)) },
            );
            &&& is_file && (size != dest_size || !skip_if_identical) ==> next == (
            AttemptStep::Finished { result: Err(Error::DestExists { path: dest }) })
            &&& is_file && size == dest_size && skip_if_identical ==> next is CompareContent
            &&& !is_file ==> next is Rename
        }),
        following(
            source,
            dest,
            skip_if_identical,
            AttemptStep::CompareContent,
            AttemptEvent::Compared { result: Ok(false) },
        ) == (AttemptStep::Finished { result: Err(Error::DestExists { path: dest }) }),
        following(
            source,
            dest,
            skip_if_identical,
            AttemptStep::CompareContent,
            AttemptEvent::Compared { result: Ok(true) },
        ) is RemoveSource,
        following(
            source,
            dest,
            skip_if_identical,
            AttemptStep::ProbeDest,
            AttemptEvent::DestProbed { result: Ok(dest_size) },
        ) == (AttemptStep::ProbeSource { dest_size }),
{
}

/// How many steps of an attempt are left at most.
pub open spec fn attempts_left(step: AttemptStep) -> nat {
    match step {
        AttemptStep::ProbeDest => 4,
        AttemptStep::ProbeSource { .. } => 3,
        AttemptStep::CompareContent => 2,
        AttemptStep::RemoveSource => 1,
        AttemptStep::Rename => 1,
        AttemptStep::Finished { .. } => 0,
    }
}

/// An attempt comes to its end: every step leads on, and to none that lies behind it.
pub proof fn lemma_attempt_comes_to_its_end(
    source: FilePath,
    dest: FilePath,
    skip_if_identical: bool,
    step: AttemptStep,
    event: AttemptEvent,
)
    requires
        answers(step, event),
    ensures
        attempts_left(following(source, dest, skip_if_identical, step, event)) < attempts_left(
            step,
        ),
{
}

/// How the move of one path goes on behind its attempt.
#[derive(Debug)]
pub enum MoveNext {
    /// The move is over: nothing was enumerated, so nothing is reported.
    Done { outcome: OperationOutcome },
    /// Copy everything, and then remove what was copied.
    CopyAcross,
    Failed { error: Error },
}

/// What the creation of the directory above `dest` comes to: an error to be reported, or
/// `None` where the move goes on.
pub fn parent_created(result: Result<(), IoFailure>, dest: &FilePath) -> (r: Option<Error>)
    ensures
        r == match result {
            Ok(_) => None::<Error>,
            Err(failure) => Some(error::io_error(failure, *dest, 0)),
        },
        r is Some <==> result is Err,
{
    match result {
        Ok(_) => None,
        Err(failure) => Some(classify_io_error(failure, dest.clone(), 0)),
    }
}

/// Whether `next` is how a move goes on behind an attempt that came to `result`.
pub open spec fn goes_on(result: Result<MoveOneOutcome, Error>, next: MoveNext) -> bool {
    match result {
        Ok(MoveOneOutcome::CrossDevice) => next is CopyAcross,
        Ok(_) => next is Done && next->outcome.is_blank(),
        Err(error) => next == (MoveNext::Failed { error }),
    }
}

/// How the move of one path goes on behind its attempt: only where the devices differ is
/// anything copied.
pub fn after_attempt(result: Result<MoveOneOutcome, Error>) -> (r: MoveNext)
    ensures
        goes_on(result, r),
{
    match result {
        Ok(MoveOneOutcome::CrossDevice) => MoveNext::CopyAcross,
        Ok(_) => MoveNext::Done { outcome: OperationOutcome::default() },
        Err(error) => MoveNext::Failed { error },
    }
}

/// How one entry is taken back when a move is undone.
#[derive(Debug)]
pub enum RollbackStep {
    /// Copy the file at `dest` back to the entry's source, and remove it from `dest`.
    RestoreSource { entry: Entry, dest: FilePath },
    /// Remove the file at `dest`; the source is still there.
    RemoveCopy { entry: Entry, dest: FilePath },
    /// Copy the file at `dest` back to the entry's source, and keep it: it was there before
    /// the move.
    RestoreFromKept { entry: Entry, dest: FilePath },
    /// Nothing: the source is still there, and the destination was there before the move.
    LeaveAlone { entry: Entry },
}

/// Removes the sources of the entries that a move is done with, one after the other: those
/// that it copied, and those whose content it found at the destination.
pub struct Sweep {
    pub entries: Vec<Entry>,
    /// How many of the entries were copied; the others were found at the destination.
    pub copied: usize,
    /// The entry whose source is removed next.
    pub next: usize,
    /// The sources that have been removed.
    pub deleted: PathSet,
    pub strategy: ErrorStrategy,
    pub finished: bool,
    pub outcome: OperationOutcome,
}

/// Whether `step` takes back what was done to `entry`, which was `copied` or was found at
/// the destination.
pub open spec fn takes_back(
    entry: Entry,
    copied: bool,
    deleted: Set<PathModel>,
    dest_root: FilePath,
    step: RollbackStep,
) -> bool {
    let text = paths::join_text(dest_root.text@, entry.relative_path.text@);
    match step {
        RollbackStep::RestoreSource { entry: e, dest } => copied && deleted.contains(entry.path@)
            && e == entry && dest.text@ == text,
        RollbackStep::RemoveCopy { entry: e, dest } => copied && !deleted.contains(entry.path@)
            && e == entry && dest.text@ == text,
        RollbackStep::RestoreFromKept { entry: e, dest } => !copied && deleted.contains(
            entry.path@,
        ) && e == entry && dest.text@ == text,
        RollbackStep::LeaveAlone { entry: e } => !copied && !deleted.contains(entry.path@) && e
            == entry,
    }
}

/// The steps that take back a move whose first `copied` entries were copied: the entry that
/// was handled last comes first.
pub open spec fn is_rollback(
    entries: Seq<Entry>,
    copied: int,
    deleted: Set<PathModel>,
    dest_root: FilePath,
    steps: Seq<RollbackStep>,
) -> bool {
    &&& steps.len() == entries.len()
    &&& forall|i: int|
        0 <= i < steps.len() ==> takes_back(
            entries[entries.len() - 1 - i],
            entries.len() - 1 - i < copied,
            deleted,
            dest_root,
            #[trigger] steps[i],
        )
}

/// The steps that take back a move.
fn rollback(entries: &Vec<Entry>, copied: usize, deleted: &PathSet, dest_root: &FilePath) -> (r: Vec<
    RollbackStep,
>)
    ensures
        is_rollback(entries@, copied as int, deleted@, *dest_root, r@),
{
    let mut steps: Vec<RollbackStep> = Vec::with_capacity(entries.len());
    let mut i: usize = entries.len();
    while i > 0
        invariant
            i <= entries@.len(),
            steps@.len() == entries@.len() - i,
            forall|j: int|
                0 <= j < steps@.len() ==> takes_back(
                    entries@[entries@.len() - 1 - j],
                    entries@.len() - 1 - j < copied,
                    deleted@,
                    *dest_root,
                    #[trigger] steps@[j],
                ),
        decreases i,
    {
        i = i - 1;
        let entry = entries[i].clone();
        let dest = dest_root.join(&entry.relative_path);
        let removed = deleted.contains(&entry.path);
        if i < copied {
            if removed {
                steps.push(RollbackStep::RestoreSource { entry, dest });
            } else {
                steps.push(RollbackStep::RemoveCopy { entry, dest });
            }
        } else if removed {
            steps.push(RollbackStep::RestoreFromKept { entry, dest });
        } else {
            steps.push(RollbackStep::LeaveAlone { entry });
        }
    }
    steps
}

/// The entries whose sources a move removes behind a copy that came to `outcome`: what was
/// copied, and what was found at the destination. A copy that was taken back leaves the
/// sources of what it found, too.
pub open spec fn swept(outcome: OperationOutcome, strategy: ErrorStrategy) -> Seq<Entry> {
    if dispatcher::takes_back(strategy, outcome.stopped_early) {
        outcome.succeeded@
    } else {
        outcome.succeeded@ + outcome.skipped@
    }
}

/// Whether everything but the reports of the sweep is as it was.
pub open spec fn same_copy(a: OperationOutcome, b: OperationOutcome) -> bool {
    &&& a.skipped == b.skipped
    &&& a.failed == b.failed
    &&& a.directories_failed == b.directories_failed
    &&& a.sources_failed == b.sources_failed
    &&& a.duration == b.duration
}

impl Sweep {
    /// Whether `path` is the source of an entry that the sweep has come to.
    pub open spec fn reached(self, path: PathModel) -> bool {
        exists|i: int| 0 <= i < self.next && (#[trigger] self.entries@[i]).path@ == path
    }

    /// What was removed are sources of entries that the sweep has come to.
    pub open spec fn wf(self) -> bool {
        &&& self.next <= self.entries@.len()
        &&& self.copied <= self.entries@.len()
        &&& forall|path: PathModel| #[trigger] self.deleted@.contains(path) ==> self.reached(path)
    }

    /// Whether `after` is the state behind the report that the removal of the next source
    /// came to `result`, `event` tells of it, and `steps` take the move back.
    pub open spec fn takes_in(
        self,
        after: Sweep,
        result: Result<(), Error>,
        dest_root: FilePath,
        event: Progress,
        steps: Seq<RollbackStep>,
    ) -> bool {
        let entry = self.entries@[self.next as int];
        let was = self.outcome;
        let now = after.outcome;
        match result {
            Ok(_) => {
                &&& event == (Progress::EntryCompleted { entry })
                &&& steps.len() == 0
                &&& after.deleted@ == self.deleted@.insert(entry.path@)
                &&& !after.finished
                &&& now == was
            },
            Err(error) => {
                let reason = outcome::reason_for(self.strategy, error);
                &&& event == (Progress::EntryFailed { entry })
                &&& after.deleted == self.deleted
                &&& after.finished == (reason is Some)
                &&& now.stopped_early == if was.stopped_early is Some {
                    was.stopped_early
                } else {
                    reason
                }
                &&& if reason is Some && self.strategy == ErrorStrategy::Undo {
                    &&& now.succeeded@.len() == 0
                    &&& now.cleanup_failed@.len() == 0
                    &&& is_rollback(
                        self.entries@,
                        self.copied as int,
                        self.deleted@,
                        dest_root,
                        steps,
                    )
                } else {
                    &&& now.succeeded == was.succeeded
                    &&& now.cleanup_failed@ == was.cleanup_failed@.push((entry, error))
                    &&& steps.len() == 0
                }
            },
        }
        
    }

    /// A sweep behind the copy that came to `outcome`, and the event that announces it.
    /// Where the move is done with nothing there is nothing to sweep.
    pub fn new(outcome: OperationOutcome, strategy: ErrorStrategy) -> (r: (Sweep, Option<Progress>))
        ensures
            r.0.wf(),
            r.0.entries@ == swept(outcome, strategy),
            r.0.copied == outcome.succeeded@.len(),
            r.0.next == 0,
            r.0.deleted@ == Set::<PathModel>::empty(),
            r.0.strategy == strategy,
            r.0.finished == (swept(outcome, strategy).len() == 0),
            r.0.outcome == outcome,
            r.1 == if swept(outcome, strategy).len() == 0 {
                None
            } else {
                Some(
                    Progress::Started {
                        bytes_total: None,
                        entries_total: swept(outcome, strategy).len() as usize,
                    },
                )
            },
    {
        let copied: usize = outcome.succeeded.len();
        let mut entries = clone_entries(&outcome.succeeded);
        let undone = match (strategy, outcome.stopped_early) {
            (ErrorStrategy::Undo, Some(_)) => true,
            _ => false,
        };
        if !undone {
            let mut found = clone_entries(&outcome.skipped);
            entries.append(&mut found);
        }
        let count: usize = entries.len();
        assert(entries@.len() == count);
        let event = if count == 0 {
            None
        } else {
            Some(Progress::Started { bytes_total: None, entries_total: count })
        };
        let sweep = Sweep {
            entries,
            copied,
            next: 0,
            deleted: PathSet::new(),
            strategy,
            finished: count == 0,
            outcome,
        };
        (sweep, event)
    }

    /// The entry whose source is removed next, with the event that announces it, or `None`
    /// where the sweep is over.
    pub fn next_entry(&self) -> (r: Option<(Entry, Progress)>)
        requires
            self.wf(),
        ensures
            r == if !self.finished && self.next < self.entries@.len() {
                let entry = self.entries@[self.next as int];
                Some((entry, Progress::EntryStarted { entry }))
            } else {
                None
            },
            r matches Some((entry, _)) ==> self.next < self.entries@.len() && entry
                == self.entries@[self.next as int],
    {
        if self.finished || self.next == self.entries.len() {
            return None;
        }
        let entry = self.entries[self.next].clone();
        let event = Progress::EntryStarted { entry: entry.clone() };
        Some((entry, event))
    }

    /// Takes in what the removal of the next source came to, and gives the event that tells
    /// of it and the steps that take the move back.
    ///
    /// A failure is kept, and ends the sweep as the error strategy says. Under `Undo` the
    /// whole move is then taken back, and nothing is reported as moved.
    pub fn record(&mut self, result: Result<(), Error>, dest_root: &FilePath) -> (r: (
        Progress,
        Vec<RollbackStep>,
    ))
        requires
            old(self).wf(),
            !old(self).finished,
            old(self).next < old(self).entries@.len(),
        ensures
            final(self).wf(),
            final(self).entries == old(self).entries,
            final(self).copied == old(self).copied,
            final(self).strategy == old(self).strategy,
            final(self).next == old(self).next + 1,
            same_copy(final(self).outcome, old(self).outcome),
            old(self).takes_in(*final(self), result, *dest_root, r.0, r.1@),
    {
        let entry = self.entries[self.next].clone();
        assert(self.entries@.len() == self.entries.len());
        self.next = self.next + 1;
        proof {
            assert forall|path: PathModel|
                old(self).reached(path) || path == entry.path@ implies self.reached(path) by {
                if path == entry.path@ {
                    assert(self.entries@[self.next - 1].path@ == path);
                } else {
                    let i = choose|i: int|
                        0 <= i < old(self).next && (#[trigger] old(self).entries@[i]).path@ == path;
                    assert(self.entries@[i].path@ == path);
                }
            }
        }
        let mut steps: Vec<RollbackStep> = Vec::new();
        match result {
            Ok(_) => {
                self.deleted.insert(&entry.path);
                (Progress::EntryCompleted { entry }, steps)
            },
            Err(error) => {
                let reason = outcome::stop_reason_for(self.strategy, &error);
                let event = Progress::EntryFailed { entry: entry.clone() };
                self.outcome.cleanup_failed.push((entry, error));
                if reason.is_some() {
                    self.finished = true;
                    if self.outcome.stopped_early.is_none() {
                        self.outcome.stopped_early = reason;
                    }
                    match self.strategy {
                        ErrorStrategy::Undo => {
                            steps = rollback(&self.entries, self.copied, &self.deleted, dest_root);
                            self.outcome.succeeded.clear();
                            self.outcome.cleanup_failed.clear();
                        },
                        _ => {},
                    }
                }
                (event, steps)
            },
        }
    }
}

/// A move removes the source of a file only where the file's content is at the destination:
/// it was copied, or it was found there.
pub proof fn lemma_only_settled_sources_are_removed(sweep: Sweep, path: PathModel)
    requires
        sweep.wf(),
        sweep.deleted@.contains(path),
    ensures
        exists|i: int| 0 <= i < sweep.entries@.len() && (#[trigger] sweep.entries@[i]).path@ == path,
{
    assert(sweep.reached(path));
}

/// The source of a file that was found at the destination is removed like that of one that
/// was copied, as long as the copy was not taken back.
pub proof fn lemma_found_files_are_swept(outcome: OperationOutcome, strategy: ErrorStrategy, i: int)
    requires
        !dispatcher::takes_back(strategy, outcome.stopped_early),
        0 <= i < outcome.skipped@.len(),
    ensures
        swept(outcome, strategy).contains(outcome.skipped@[i]),
{
    assert(swept(outcome, strategy)[outcome.succeeded@.len() + i] == outcome.skipped@[i]);
}

/// Taking a move back restores every source that was removed.
pub proof fn lemma_rollback_restores_removed_sources(
    sweep: Sweep,
    dest_root: FilePath,
    steps: Seq<RollbackStep>,
    path: PathModel,
)
    requires
        sweep.wf(),
        is_rollback(sweep.entries@, sweep.copied as int, sweep.deleted@, dest_root, steps),
        sweep.deleted@.contains(path),
    ensures
        exists|j: int|
            0 <= j < steps.len() && restores(#[trigger] steps[j], path),
{
    assert(sweep.reached(path));
    let i = choose|i: int|
        0 <= i < sweep.next && (#[trigger] sweep.entries@[i]).path@ == path;
    let j = sweep.entries@.len() - 1 - i;
    assert(takes_back(
        sweep.entries@[sweep.entries@.len() - 1 - j],
        sweep.entries@.len() - 1 - j < sweep.copied,
        sweep.deleted@,
        dest_root,
        steps[j],
    ));
    assert(restores(steps[j], path));
}

/// Whether a step brings the source at `path` back.
pub open spec fn restores(step: RollbackStep, path: PathModel) -> bool {
    match step {
        RollbackStep::RestoreSource { entry, .. } => entry.path@ == path,
        RollbackStep::RestoreFromKept { entry, .. } => entry.path@ == path,
        _ => false,
    }
}

/// Taking a move back removes no file that was at the destination before it.
pub proof fn lemma_rollback_keeps_found_files(
    entries: Seq<Entry>,
    copied: int,
    deleted: Set<PathModel>,
    dest_root: FilePath,
    steps: Seq<RollbackStep>,
    j: int,
)
    requires
        is_rollback(entries, copied, deleted, dest_root, steps),
        0 <= j < steps.len(),
        steps[j] is RestoreSource || steps[j] is RemoveCopy,
    ensures
        entries.len() - 1 - j < copied,
{
    assert(takes_back(
        entries[entries.len() - 1 - j],
        entries.len() - 1 - j < copied,
        deleted,
        dest_root,
        steps[j],
    ));
}

/// A copy of `entries`.
pub fn clone_entries(entries: &Vec<Entry>) -> (r: Vec<Entry>)
    ensures
        r@ == entries@,
{
    let mut out: Vec<Entry> = Vec::with_capacity(entries.len());
    let mut i: usize = 0;
    while i < entries.len()
        invariant
            i <= entries@.len(),
            out@ == entries@.take(i as int),
        decreases entries@.len() - i,
    {
        out.push(entries[i].clone());
        assert(out@ =~= entries@.take(i + 1));
        i = i + 1;
    }
    assert(entries@.take(entries@.len() as int) =~= entries@);
    out
}

/// Settings of a move.
#[derive(Debug)]
pub struct MoveBuilder {
    pub source: FilePath,
    pub dest: FilePath,
    pub overwrite: bool,
    pub skip_if_identical: bool,
    pub preserve_permissions: bool,
    pub allow_filesystem_integrity_risk: bool,
    pub small_file_threshold: Option<u64>,
    pub batch_config: BatchConfig,
    pub concurrency: Option<usize>,
}

impl MoveBuilder {
    /// A move that refuses a destination that exists.
    pub fn new(source: FilePath, dest: FilePath) -> (r: MoveBuilder)
        ensures
            r == (MoveBuilder {
                source,
                dest,
                overwrite: false,
                skip_if_identical: false,
                preserve_permissions: false,
                allow_filesystem_integrity_risk: false,
                small_file_threshold: None,
                batch_config: config::default_config(),
                concurrency: None,
            }),
    {
        MoveBuilder {
            source,
            dest,
            overwrite: false,
            skip_if_identical: false,
            preserve_permissions: false,
            allow_filesystem_integrity_risk: false,
            small_file_threshold: None,
            batch_config: BatchConfig::default(),
            concurrency: None,
        }
    }

    pub fn overwrite(self, overwrite: bool) -> (r: MoveBuilder)
        ensures
            r == (MoveBuilder { overwrite, ..self }),
    {
        MoveBuilder { overwrite, ..self }
    }

    /// Whether a destination that holds the same content already is left alone rather than
    /// refused. A different one is still refused.
    pub fn skip_if_identical(self, skip: bool) -> (r: MoveBuilder)
        ensures
            r == (MoveBuilder { skip_if_identical: skip, ..self }),
    {
        MoveBuilder { skip_if_identical: skip, ..self }
    }

    /// Whether the permissions of files and directories are kept.
    pub fn preserve_permissions(self, preserve: bool) -> (r: MoveBuilder)
        ensures
            r == (MoveBuilder { preserve_permissions: preserve, ..self }),
    {
        MoveBuilder { preserve_permissions: preserve, ..self }
    }

    /// Whether to write to a file system with a known write-integrity issue.
    pub fn allow_filesystem_integrity_risk(self, allow: bool) -> (r: MoveBuilder)
        ensures
            r == (MoveBuilder { allow_filesystem_integrity_risk: allow, ..self }),
    {
        MoveBuilder { allow_filesystem_integrity_risk: allow, ..self }
    }

    /// Files of at most this many bytes are batched.
    pub fn small_file_threshold(self, bytes: u64) -> (r: MoveBuilder)
        ensures
            r == (MoveBuilder { small_file_threshold: Some(bytes), ..self }),
    {
        MoveBuilder { small_file_threshold: Some(bytes), ..self }
    }

    pub fn max_bytes_per_batch(self, bytes: u64) -> (r: MoveBuilder)
        ensures
            r == (MoveBuilder {
                batch_config: (BatchConfig { max_bytes_per_batch: bytes, ..self.batch_config }),
                ..self
            }),
    {
        let mut out = self;
        out.batch_config.max_bytes_per_batch = bytes;
        out
    }

    pub fn max_files_per_batch(self, n: usize) -> (r: MoveBuilder)
        ensures
            r == (MoveBuilder {
                batch_config: (BatchConfig { max_files_per_batch: Some(n), ..self.batch_config }),
                ..self
            }),
    {
        let mut out = self;
        out.batch_config.max_files_per_batch = Some(n);
        out
    }

    pub fn batch_sort_order(self, order: SortOrder) -> (r: MoveBuilder)
        ensures
            r == (MoveBuilder {
                batch_config: (BatchConfig { sort_order: order, ..self.batch_config }),
                ..self
            }),
    {
        let mut out = self;
        out.batch_config.sort_order = order;
        out
    }

    /// What a failure of one entry does to the rest.
    pub fn on_error(self, strategy: ErrorStrategy) -> (r: MoveBuilder)
        ensures
            r == (MoveBuilder {
                batch_config: (BatchConfig { error_strategy: strategy, ..self.batch_config }),
                ..self
            }),
    {
        let mut out = self;
        out.batch_config.error_strategy = strategy;
        out
    }

    /// How many units of work run at a time.
    pub fn batch_concurrency(self, n: usize) -> (r: MoveBuilder)
        ensures
            r == (MoveBuilder { concurrency: Some(n), ..self }),
    {
        MoveBuilder { concurrency: Some(n), ..self }
    }
}

/// What is swept is what was copied, and what was found at the destination unless the copy
/// was taken back: the source of an entry that failed is never among it.
pub proof fn lemma_swept_is_settled(outcome: OperationOutcome, strategy: ErrorStrategy, entry: Entry)
    ensures
        swept(outcome, strategy).contains(entry) ==> outcome.succeeded@.contains(entry)
            || outcome.skipped@.contains(entry),
        outcome.succeeded@.contains(entry) ==> swept(outcome, strategy).contains(entry),
        outcome.skipped@.contains(entry) && (strategy != ErrorStrategy::Undo
            || outcome.stopped_early is None) ==> swept(outcome, strategy).contains(entry),
        strategy == ErrorStrategy::Undo && outcome.stopped_early is Some ==> swept(
            outcome,
            strategy,
        ) == outcome.succeeded@,
        swept(outcome, strategy).take(outcome.succeeded@.len() as int) == outcome.succeeded@,
{
    let all = swept(outcome, strategy);
    let done = outcome.succeeded@;
    let found = outcome.skipped@;
    assert(all.take(done.len() as int) =~= done);
    if all.contains(entry) {
        let i = choose|i: int| 0 <= i < all.len() && all[i] == entry;
        if i < done.len() {
            assert(done[i] == entry);
        } else {
            assert(found[i - done.len()] == entry);
        }
    }
    if done.contains(entry) {
        let i = choose|i: int| 0 <= i < done.len() && done[i] == entry;
        assert(all[i] == entry);
    }
    if found.contains(entry) && (strategy != ErrorStrategy::Undo || outcome.stopped_early is None) {
        let i = choose|i: int| 0 <= i < found.len() && found[i] == entry;
        assert(all[done.len() + i] == entry);
    }
}

/// Taking a move back goes through its entries from the last to the first, removes each copy
/// exactly where the entry was copied, and brings each source back exactly where it was
/// removed.
pub proof fn lemma_rollback_undoes_each_entry(
    entries: Seq<Entry>,
    copied: int,
    deleted: Set<PathModel>,
    dest_root: FilePath,
    steps: Seq<RollbackStep>,
    i: int,
)
    requires
        is_rollback(entries, copied, deleted, dest_root, steps),
        0 <= i < entries.len(),
    ensures
        ({
            let step = steps[entries.len() - 1 - i];
            let entry = entries[i];
            let removes_copy = step is RestoreSource || step is RemoveCopy;
            let brings_back = step is RestoreSource || step is RestoreFromKept;
            &&& removes_copy <==> i < copied
            &&& brings_back <==> deleted.contains(entry.path@)
            &&& match step {
                RollbackStep::RestoreSource { entry: e, dest } => e == entry && dest@
                    == paths::join_model(dest_root@, entry.relative_path@),
                RollbackStep::RemoveCopy { entry: e, dest } => e == entry && dest@
                    == paths::join_model(dest_root@, entry.relative_path@),
                RollbackStep::RestoreFromKept { entry: e, dest } => e == entry && dest@
                    == paths::join_model(dest_root@, entry.relative_path@),
                RollbackStep::LeaveAlone { entry: e } => e == entry,
            }
        }),
        steps.len() == entries.len(),
{
    let j = entries.len() - 1 - i;
    assert(takes_back(
        entries[entries.len() - 1 - j],
        entries.len() - 1 - j < copied,
        deleted,
        dest_root,
        steps[j],
    ));
    paths::lemma_join(dest_root.text@, entries[i].relative_path.text@);
}

/// Without `overwrite` an attempt begins with a look at the destination, never with a rename.
pub proof fn lemma_attempt_looks_before_it_renames(overwrite: bool)
    ensures
        first_of(overwrite) is Rename <==> overwrite,
        first_of(overwrite) is ProbeDest <==> !overwrite,
{
}

/// Only a move across devices copies; a failed attempt fails the move with its own error, and
/// any other one ends it without a further step.
pub proof fn lemma_only_other_devices_are_copied_to(
    result: Result<MoveOneOutcome, Error>,
    next: MoveNext,
)
    requires
        goes_on(result, next),
    ensures
        next is CopyAcross <==> result == Ok::<MoveOneOutcome, Error>(MoveOneOutcome::CrossDevice),
        next is Failed <==> result is Err,
        result is Err ==> next == (MoveNext::Failed { error: result->Err_0 }),
        next is Done ==> next->outcome.failed@.len() == 0 && next->outcome.stopped_early is None,
{
}

/// A removed source is told as removed and a failed one as failed. Where a failure ends the
/// sweep under `Undo`, nothing is reported as moved and everything is taken back; otherwise
/// what was moved stays reported, and the failure is kept with its entry.
pub proof fn lemma_sweep_reports_what_was_removed(
    before: Sweep,
    after: Sweep,
    result: Result<(), Error>,
    dest_root: FilePath,
    event: Progress,
    steps: Seq<RollbackStep>,
)
    requires
        before.next < before.entries@.len(),
        before.takes_in(after, result, dest_root, event, steps),
    ensures
        ({
            let entry = before.entries@[before.next as int];
            let undone = result is Err && before.strategy == ErrorStrategy::Undo;
            &&& event == if result is Ok {
                Progress::EntryCompleted { entry }
            } else {
                Progress::EntryFailed { entry }
            }
            &&& result is Ok ==> after.deleted@.contains(entry.path@) && !after.finished
            &&& result is Err ==> after.deleted@ == before.deleted@
            &&& after.finished <==> result is Err && (before.strategy
                != ErrorStrategy::ContinueAndCollect || error::fatal(result->Err_0))
            &&& undone ==> after.outcome.succeeded@.len() == 0 && steps.len()
                == before.entries@.len()
            &&& !undone ==> after.outcome.succeeded == before.outcome.succeeded && steps.len() == 0
            &&& result is Err && !undone ==> after.outcome.cleanup_failed@.last() == (
                entry,
                result->Err_0,
            )
            &&& before.outcome.stopped_early is Some ==> after.outcome.stopped_early
                == before.outcome.stopped_early
        }),
{
}

/// A sweep changes nothing of what the copy before it reported but what it takes back.
pub proof fn lemma_copy_stays_reported(before: OperationOutcome, after: OperationOutcome)
    requires
        same_copy(after, before),
    ensures
        after.skipped == before.skipped,
        after.failed == before.failed,
        after.directories_failed == before.directories_failed,
        after.sources_failed == before.sources_failed,
{
}

} // verus!
