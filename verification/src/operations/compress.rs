use vstd::prelude::*;

use crate::error;
use crate::error::{classify_io_error, Error, IoFailure, IoKind};
use crate::os_text;
use crate::paths;
use crate::paths::FilePath;
use crate::planner::config;
use crate::planner::config::{BatchConfig, ErrorStrategy};
use crate::planner::dispatcher;
use crate::planner::dispatcher::{Admission, Phase};
use crate::planner::outcome;
use crate::planner::outcome::{OperationOutcome, StopReason};
use crate::planner::plan::ExecutionPlan;
use crate::profiler::{Entry, Timestamp};
use crate::progress::Progress;
use crate::text;

verus! {

/// What a file or a tree is compressed into.
#[derive(Debug, Clone, Copy, PartialEq, Eq, Structural)]
pub enum CompressFormat {
    /// An archive of one file or a whole tree.
    Zip,
    /// One compressed stream, and so one file only.
    Gzip,
}

/// The format that goes with an extension.
pub open spec fn format_of(extension: Option<Seq<char>>) -> Option<CompressFormat> {
    match extension {
        Some(ext) => if ext == "zip"@ {
            Some(CompressFormat::Zip)
        } else if ext == "gz"@ {
            Some(CompressFormat::Gzip)
        } else {
            None
        },
        None => None,
    }
}

/// The format that goes with the extension of `path`, if there is one.
pub fn format_for(path: &FilePath) -> (r: Option<CompressFormat>)
    ensures
        r == format_of(paths::extension_of(path@)),
{
    proof {
        reveal_strlit("zip");
        reveal_strlit("gz");
    }
    match path.extension() {
        None => None,
        Some(ext) => if text::same(ext.as_str(), "zip") {
            Some(CompressFormat::Zip)
        } else if text::same(ext.as_str(), "gz") {
            Some(CompressFormat::Gzip)
        } else {
            None
        },
    }
}

/// The format that the extension of the destination asks for.
pub fn infer_format(dest: &FilePath) -> (r: Result<CompressFormat, Error>)
    ensures
        r == resolved(None, *dest),
{
    match format_for(dest) {
        Some(format) => Ok(format),
        None => Err(Error::UnknownCompressFormat { path: dest.clone() }),
    }
}

/// The format to be used.
pub open spec fn resolved(format: Option<CompressFormat>, dest: FilePath) -> Result<
    CompressFormat,
    Error,
> {
    match format {
        Some(format) => Ok::<CompressFormat, Error>(format),
        None => match format_of(paths::extension_of(dest@)) {
            Some(format) => Ok(format),
            None => Err(Error::UnknownCompressFormat { path: dest }),
        },
    }
}

/// The format to be used: the one that was asked for, or else the one that the
/// destination's extension stands for.
pub fn resolve_format(format: Option<CompressFormat>, dest: &FilePath) -> (r: Result<
    CompressFormat,
    Error,
>)
    ensures
        r == resolved(format, *dest),
{
    match format {
        Some(format) => Ok(format),
        None => infer_format(dest),
    }
}

/// Why a source cannot be put into a gzip stream.
pub open spec fn gzip_refusal(is_dir: Result<bool, IoFailure>, source: FilePath) -> Option<Error> {
    match is_dir {
        Ok(true) => Some(Error::GzipRequiresFile { path: source }),
        Ok(false) => None::<Error>,
        Err(failure) => Some(error::io_error(failure, source, 0)),
    }
}

/// Why a source cannot be put into a gzip stream, where `is_dir` says whether it is a
/// directory; `None` where it can.
pub fn check_gzip_source(is_dir: Result<bool, IoFailure>, source: &FilePath) -> (r: Option<Error>)
    ensures
        r == gzip_refusal(is_dir, *source),
{
    match is_dir {
        Ok(is_dir) => if is_dir {
            Some(Error::GzipRequiresFile { path: source.clone() })
        } else {
            None
        },
        Err(failure) => Some(classify_io_error(failure, source.clone(), 0)),
    }
}

/// The one entry of a gzip stream: its relative path is the last name of the source.
pub fn gzip_entry(source: &FilePath, size: u64, modified: Option<Timestamp>) -> (r: Entry)
    ensures
        r.path == *source,
        r.size == size,
        r.modified == modified,
        r.relative_path.text@ == match paths::last_name(source@) {
            Some(name) => name,
            None => Seq::empty(),
        },
{
    let relative_path = match source.file_name() {
        Some(name) => FilePath { text: name },
        None => FilePath::empty(),
    };
    Entry { path: source.clone(), relative_path, size, modified }
}

/// The events that announce a gzip stream.
pub fn gzip_started(entry: &Entry) -> (r: (Progress, Progress))
    ensures
        r.0 == (Progress::Started { bytes_total: Some(entry.size), entries_total: 1 }),
        r.1 == (Progress::EntryStarted { entry: *entry }),
{
    (
        Progress::Started { bytes_total: Some(entry.size), entries_total: 1 },
        Progress::EntryStarted { entry: entry.clone() },
    )
}

/// Whether a gzip stream that ended with `result` is told by `event` and reported as `r`.
pub open spec fn gzip_came_to(
    entry: Entry,
    result: Result<(), Error>,
    event: Progress,
    r: Result<OperationOutcome, Error>,
) -> bool {
    match result {
        Ok(_) => {
            &&& event == (Progress::EntryCompleted { entry })
            &&& r matches Ok(outcome)
            &&& outcome.succeeded@ == seq![entry]
            &&& outcome.skipped@.len() == 0
            &&& outcome.failed@.len() == 0
            &&& outcome.cleanup_failed@.len() == 0
            &&& outcome.stopped_early is None
            &&& outcome.directories_failed@.len() == 0
            &&& outcome.sources_failed@.len() == 0
            &&& outcome.duration.length() == 0
        },
        Err(error) => {
            &&& event == (Progress::EntryFailed { entry })
            &&& r == Err::<OperationOutcome, Error>(error)
        },
    }
}

/// What a gzip stream came to, and the event that tells of it.
pub fn gzip_finished(entry: Entry, result: Result<(), Error>) -> (r: (
    Progress,
    Result<OperationOutcome, Error>,
))
    ensures
        gzip_came_to(entry, result, r.0, r.1),
{
    match result {
        Ok(_) => {
            let event = Progress::EntryCompleted { entry: entry.clone() };
            let mut outcome = OperationOutcome::default();
            outcome.succeeded.push(entry);
            assert(outcome.succeeded@ =~= seq![entry]);
            (event, Ok(outcome))
        },
        Err(error) => (Progress::EntryFailed { entry }, Err(error)),
    }
}

/// The name that an entry has in an archive: its relative path, with `/` between the
/// names on every platform. What is no Unicode in it is replaced.
pub fn archive_name(relative_path: &FilePath) -> (r: String)
    ensures
        r@ == text::replaced(os_text::shown_text(relative_path.text@), '\\', '/'),
{
    text::replace_char(relative_path.shown().as_str(), '\\', '/')
}

/// Whether a stopped run leaves no archive behind.
pub open spec fn discards(strategy: ErrorStrategy) -> bool {
    strategy == ErrorStrategy::AbortOnError || strategy == ErrorStrategy::Undo
}

fn discards_archive(strategy: ErrorStrategy) -> (r: bool)
    ensures
        r == discards(strategy),
{
    match strategy {
        ErrorStrategy::ContinueAndCollect => false,
        _ => true,
    }
}

/// Whether all but `succeeded`, `failed` and `stopped_early` is as in a blank outcome.
pub open spec fn only_entries(outcome: OperationOutcome) -> bool {
    &&& outcome.skipped@.len() == 0
    &&& outcome.cleanup_failed@.len() == 0
    &&& outcome.directories_failed@.len() == 0
    &&& outcome.sources_failed@.len() == 0
    &&& outcome.duration.length() == 0
}

/// The one writer of an archive. Workers read the files at the same time and hand their
/// contents over; the writer takes them one by one.
pub struct ArchiveWriter {
    pub strategy: ErrorStrategy,
    pub outcome: OperationOutcome,
}

impl ArchiveWriter {
    pub open spec fn wf(self) -> bool {
        &&& only_entries(self.outcome)
        &&& self.outcome.stopped_early == outcome::first_reason(
            self.strategy,
            self.outcome.failed@,
        )
    }

    /// Whether a failure has stopped the run: the writer takes nothing more, and the workers
    /// read nothing more.
    pub open spec fn stopped(self) -> bool {
        self.outcome.stopped_early is Some
    }

    /// Whether `now` is the outcome behind the report that the writing of `entry` came to
    /// `result`, and `r` the event that tells of it.
    pub open spec fn takes_in(
        self,
        now: OperationOutcome,
        entry: Entry,
        result: Result<(), String>,
        r: Progress,
    ) -> bool {
        match result {
            Ok(_) => {
                &&& r == (Progress::EntryCompleted { entry })
                &&& now.succeeded@ == self.outcome.succeeded@.push(entry)
                &&& now.failed == self.outcome.failed
                &&& now.stopped_early == self.outcome.stopped_early
            },
            Err(message) => {
                let error = archive_error(entry.path, message);
                &&& r == (Progress::EntryFailed { entry })
                &&& now.succeeded == self.outcome.succeeded
                &&& now.failed@ == self.outcome.failed@.push(
                    (entry, error),
                )
                &&& now.stopped_early == if self.stopped() {
                    self.outcome.stopped_early
                } else {
                    outcome::strategy_reason(self.strategy)
                }
            },
        }
    }

    /// Whether `now` is the outcome behind the report that `entry` could not be read.
    pub open spec fn misses(self, now: OperationOutcome, entry: Entry, failure: IoFailure) -> bool {
        let error = error::io_error(failure, entry.path, 0);
        &&& now.succeeded == self.outcome.succeeded
        &&& now.failed@ == self.outcome.failed@.push((entry, error))
        &&& now.stopped_early == if self.stopped() {
            self.outcome.stopped_early
        } else {
            outcome::reason_for(self.strategy, error)
        }
    }

    /// Whether `r` is what the run comes to once the archive at `dest` is closed.
    pub open spec fn ends_with(
        self,
        closed: Result<(), String>,
        dest: FilePath,
        r: Result<(OperationOutcome, bool), Error>,
    ) -> bool {
        match closed {
            Err(message) => r == Err::<(OperationOutcome, bool), Error>(
                archive_error(dest, message),
            ),
            Ok(_) => {
                &&& r matches Ok((outcome, removed))
                &&& removed == (self.stopped() && discards(self.strategy))
                &&& only_entries(outcome)
                &&& outcome.failed == self.outcome.failed
                &&& outcome.stopped_early == self.outcome.stopped_early
                &&& if removed {
                    outcome.succeeded@.len() == 0
                } else {
                    outcome.succeeded == self.outcome.succeeded
                }
            },
        }
    }

    /// A writer that has taken nothing.
    pub fn new(strategy: ErrorStrategy) -> (r: ArchiveWriter)
        ensures
            r.wf(),
            r.strategy == strategy,
            r.outcome.is_blank(),
    {
        ArchiveWriter { strategy, outcome: OperationOutcome::default() }
    }

    /// Whether the run is stopped.
    pub fn is_stopped(&self) -> (r: bool)
        ensures
            r == self.stopped(),
    {
        self.outcome.stopped_early.is_some()
    }

    /// Keeps the failure of `entry`. The first failure that stops the run gives the reason.
    fn record_failure(&mut self, entry: Entry, error: Error)
        requires
            old(self).wf(),
        ensures
            final(self).wf(),
            final(self).strategy == old(self).strategy,
            final(self).outcome.succeeded == old(self).outcome.succeeded,
            final(self).outcome.failed@ == old(self).outcome.failed@.push((entry, error)),
            final(self).outcome.stopped_early == if old(self).stopped() {
                old(self).outcome.stopped_early
            } else {
                outcome::reason_for(old(self).strategy, error)
            },
    {
        let reason = outcome::stop_reason_for(self.strategy, &error);
        self.outcome.failed.push((entry, error));
        assert(self.outcome.failed@.drop_last() =~= old(self).outcome.failed@);
        if reason.is_some() {
            if self.outcome.stopped_early.is_none() {
                self.outcome.stopped_early = reason;
            }
        }
    }

    /// Takes in what the writing of `entry` into the archive came to; a failure comes with
    /// what the archive says of it.
    pub fn wrote(&mut self, entry: Entry, result: Result<(), String>) -> (r: Progress)
        requires
            old(self).wf(),
        ensures
            final(self).wf(),
            final(self).strategy == old(self).strategy,
            old(self).takes_in(final(self).outcome, entry, result, r),
    {
        match result {
            Ok(_) => {
                let event = Progress::EntryCompleted { entry: entry.clone() };
                self.outcome.succeeded.push(entry);
                event
            },
            Err(message) => {
                let event = Progress::EntryFailed { entry: entry.clone() };
                let path = entry.path.clone();
                let source = IoFailure { kind: IoKind::Other, message };
                self.record_failure(entry, Error::Io { path, source });
                event
            },
        }
    }

    /// Takes in that `entry` could not be read. The worker has told of it already
    /// (`read_failed`).
    pub fn unreadable(&mut self, entry: Entry, failure: IoFailure)
        requires
            old(self).wf(),
        ensures
            final(self).wf(),
            final(self).strategy == old(self).strategy,
            old(self).misses(final(self).outcome, entry, failure),
    {
        let error = classify_io_error(failure, entry.path.clone(), 0);
        self.record_failure(entry, error);
    }

    /// The outcome once the archive is closed, and whether the archive is removed again: a
    /// run that a failure stopped leaves none behind, unless failures are collected.
    pub fn finish(self, closed: Result<(), String>, dest: &FilePath) -> (r: Result<
        (OperationOutcome, bool),
        Error,
    >)
        requires
            self.wf(),
        ensures
            self.ends_with(closed, *dest, r),
    {
        if let Err(message) = closed {
            let source = IoFailure { kind: IoKind::Other, message };
            return Err(Error::Io { path: dest.clone(), source });
        }
        let mut outcome = self.outcome;
        let removed = outcome.stopped_early.is_some() && discards_archive(self.strategy);
        if removed {
            outcome.succeeded.clear();
        }
        Ok((outcome, removed))
    }
}

/// The error of an archive at `path` that says `message`.
pub open spec fn archive_error(path: FilePath, message: String) -> Error {
    Error::Io { path, source: IoFailure { kind: IoKind::Other, message } }
}

/// Whether a run that came to `outcome` is reported as `now`, and its archive is `removed`.
pub open spec fn cancelled_as(
    outcome: OperationOutcome,
    cancelled: bool,
    strategy: ErrorStrategy,
    now: OperationOutcome,
    removed: bool,
) -> bool {
    if cancelled && outcome.stopped_early is None {
        &&& now.stopped_early == Some(StopReason::Cancelled)
        &&& removed == discards(strategy)
        &&& only_entries(now)
        &&& now.failed == outcome.failed
        &&& if discards(strategy) {
            now.succeeded@.len() == 0
        } else {
            now.succeeded == outcome.succeeded
        }
    } else {
        &&& now == outcome
        &&& !removed
    }
}

/// The outcome behind a cancelled run, and whether the archive is removed: to the writer a
/// cancelled run looks like one that is complete.
pub fn after_cancel(outcome: OperationOutcome, cancelled: bool, strategy: ErrorStrategy) -> (r: (
    OperationOutcome,
    bool,
))
    requires
        only_entries(outcome),
    ensures
        cancelled_as(outcome, cancelled, strategy, r.0, r.1),
{
    let mut outcome = outcome;
    if cancelled && outcome.stopped_early.is_none() {
        outcome.stopped_early = Some(StopReason::Cancelled);
        if discards_archive(strategy) {
            outcome.succeeded.clear();
            return (outcome, true);
        }
    }
    (outcome, false)
}

/// The event that a worker sends where it could not read `entry`.
pub fn read_failed(entry: &Entry) -> (r: Progress)
    ensures
        r == (Progress::EntryFailed { entry: *entry }),
{
    Progress::EntryFailed { entry: entry.clone() }
}

/// The files of an archive, on their way to the workers that read them.
pub struct ReadQueue {
    pub units: Vec<Vec<Entry>>,
    /// How many entries of each unit a worker has taken.
    pub taken: Vec<usize>,
    pub phases: Vec<Phase>,
    /// The first unit that is still queued.
    pub next: usize,
    /// How many workers have a unit.
    pub active: usize,
    pub limit: usize,
    /// No further unit is started.
    pub closed: bool,
    pub stopped_by_cancel: bool,
    /// The run was stopped before every worker was free.
    pub stopped: bool,
}

impl ReadQueue {
    /// The entries of each unit.
    pub open spec fn lists(self) -> Seq<Seq<Entry>> {
        dispatcher::unit_entries(self.units@)
    }

    pub open spec fn wf(self) -> bool {
        &&& self.taken@.len() == self.units@.len()
        &&& self.phases@.len() == self.units@.len()
        &&& self.next <= self.units@.len()
        &&& 1 <= self.limit
        &&& self.active <= self.limit
        &&& self.active == dispatcher::live_count(self.phases@)
        &&& forall|u: int|
            0 <= u < self.units@.len() ==> (#[trigger] self.taken@[u]) <= self.units@[u]@.len()
        &&& forall|u: int|
            0 <= u < self.units@.len() ==> ((#[trigger] self.phases@[u]) == Phase::Queued <==> u
                >= self.next)
        &&& forall|u: int|
            self.next <= u < self.units@.len() ==> (#[trigger] self.taken@[u]) == 0
        &&& !self.stopped ==> forall|u: int|
            0 <= u < self.units@.len() && (#[trigger] self.phases@[u]) == Phase::Ended
                ==> self.taken@[u] == self.units@[u]@.len()
        &&& self.closed && !self.stopped && !self.stopped_by_cancel ==> self.next
            == self.units@.len()
    }

    /// Whether the files are the same: only the progress differs.
    pub open spec fn same_files(self, other: ReadQueue) -> bool {
        &&& self.units == other.units
        &&& self.limit == other.limit
    }

    /// Whether `r` is what is done next, and `after` the state behind it.
    pub open spec fn admits(
        self,
        after: ReadQueue,
        stopped: bool,
        cancelled: bool,
        r: Admission,
    ) -> bool {
        if self.closed || self.next == self.units@.len() || stopped {
            &&& r == Admission::Finish
            &&& after.closed
            &&& after.stopped_by_cancel == self.stopped_by_cancel
            &&& after.next == self.next
            &&& after.active == self.active
            &&& after.phases == self.phases
        } else if cancelled {
            &&& r == Admission::Finish
            &&& after.closed
            &&& after.stopped_by_cancel
            &&& after.next == self.next
            &&& after.active == self.active
            &&& after.phases == self.phases
        } else if self.active == self.limit {
            &&& r == Admission::Wait
            &&& after == self
        } else {
            &&& r == Admission::Start(self.next)
            &&& !after.closed
            &&& after.stopped_by_cancel == self.stopped_by_cancel
            &&& after.next == self.next + 1
            &&& after.active == self.active + 1
            &&& after.phases@ == self.phases@.update(
                self.next as int,
                Phase::Running,
            )
        }
    }

    /// Whether `r` is what the worker of `unit` reads next, and `after` the state behind it.
    pub open spec fn hands_out(
        self,
        after: ReadQueue,
        unit: usize,
        stopped: bool,
        r: Option<(Entry, Progress)>,
    ) -> bool {
        if !stopped && self.taken@[unit as int] < self.units@[unit as int]@.len() {
            let entry = self.units@[unit as int]@[self.taken@[unit as int] as int];
            &&& r == Some((entry, Progress::EntryStarted { entry }))
            &&& after.taken@ == self.taken@.update(
                unit as int,
                (self.taken@[unit as int] + 1) as usize,
            )
            &&& after.active == self.active
            &&& after.phases == self.phases
        } else {
            &&& r is None
            &&& after.taken == self.taken
            &&& after.active == self.active - 1
            &&& after.phases@ == self.phases@.update(unit as int, Phase::Ended)
        }
    }

    /// A queue of all files of a plan, and the event that announces them. At least one
    /// worker reads.
    pub fn new(plan: ExecutionPlan, concurrency: usize) -> (r: (ReadQueue, Progress))
        requires
            dispatcher::plan_bytes(plan) <= u64::MAX,
            dispatcher::units_len(dispatcher::plan_units(plan)) <= usize::MAX,
        ensures
            r.0.wf(),
            r.0.lists() == dispatcher::plan_units(plan),
            r.0.next == 0,
            r.0.active == 0,
            r.0.limit == if concurrency == 0 {
                1
            } else {
                concurrency
            },
            r.0.limit >= 1,
            r.0.limit >= concurrency,
            concurrency >= 1 ==> r.0.limit <= concurrency,
            !r.0.closed,
            !r.0.stopped_by_cancel,
            !r.0.stopped,
            forall|u: int| 0 <= u < r.0.taken@.len() ==> (#[trigger] r.0.taken@[u]) == 0,
            r.1 == (Progress::Started {
                bytes_total: Some(dispatcher::plan_bytes(plan) as u64),
                entries_total: dispatcher::units_len(dispatcher::plan_units(plan)) as usize,
            }),
    {
        let (bytes, entries) = match dispatcher::plan_totals(&plan) {
            Some(totals) => totals,
            None => {
                assert(false);
                (0u64, 0usize)
            },
        };
        let units = dispatcher::take_units(plan);
        let mut taken: Vec<usize> = Vec::with_capacity(units.len());
        let mut phases: Vec<Phase> = Vec::with_capacity(units.len());
        let mut u: usize = 0;
        assert(dispatcher::live_count(phases@) == 0);
        while u < units.len()
            invariant
                u <= units@.len(),
                taken@.len() == u,
                phases@.len() == u,
                forall|v: int| 0 <= v < u ==> (#[trigger] taken@[v]) == 0,
                forall|v: int| 0 <= v < u ==> (#[trigger] phases@[v]) == Phase::Queued,
                dispatcher::live_count(phases@) == 0,
            decreases units@.len() - u,
        {
            let ghost before = phases@;
            taken.push(0);
            phases.push(Phase::Queued);
            assert(phases@.drop_last() =~= before);
            u = u + 1;
        }
        let queue = ReadQueue {
            units,
            taken,
            phases,
            next: 0,
            active: 0,
            limit: if concurrency == 0 {
                1
            } else {
                concurrency
            },
            closed: false,
            stopped_by_cancel: false,
            stopped: false,
        };
        (queue, Progress::Started { bytes_total: Some(bytes), entries_total: entries })
    }

    /// Decides whether a worker starts on the next unit. Nothing is started once the run is
    /// stopped or cancelled.
    pub fn next_unit(&mut self, stopped: bool, cancelled: bool) -> (r: Admission)
        requires
            old(self).wf(),
        ensures
            final(self).wf(),
            final(self).same_files(*old(self)),
            final(self).taken == old(self).taken,
            final(self).stopped == (old(self).stopped || stopped),
            old(self).admits(*final(self), stopped, cancelled, r),
    {
        if stopped {
            self.stopped = true;
        }
        if self.closed || self.next == self.units.len() || stopped {
            self.closed = true;
            return Admission::Finish;
        }
        if cancelled {
            self.closed = true;
            self.stopped_by_cancel = true;
            return Admission::Finish;
        }
        if self.active == self.limit {
            return Admission::Wait;
        }
        let unit: usize = self.next;
        proof {
            dispatcher::lemma_live_count_update(self.phases@, unit as int, Phase::Running);
        }
        self.phases.set(unit, Phase::Running);
        self.next = unit + 1;
        self.active = self.active + 1;
        Admission::Start(unit)
    }

    /// The entry that the worker of `unit` reads next, with the event that announces it, or
    /// `None` where the worker is free: it reads nothing more once the run is stopped.
    pub fn next_entry(&mut self, unit: usize, stopped: bool) -> (r: Option<(Entry, Progress)>)
        requires
            old(self).wf(),
            unit < old(self).units@.len(),
            old(self).phases@[unit as int] == Phase::Running,
        ensures
            final(self).wf(),
            final(self).same_files(*old(self)),
            final(self).next == old(self).next,
            final(self).closed == old(self).closed,
            final(self).stopped_by_cancel == old(self).stopped_by_cancel,
            final(self).stopped == (old(self).stopped || stopped),
            old(self).hands_out(*final(self), unit, stopped, r),
    {
        if stopped {
            self.stopped = true;
        }
        let position: usize = self.taken[unit];
        if !stopped && position < self.units[unit].len() {
            let entry = self.units[unit][position].clone();
            let event = Progress::EntryStarted { entry: entry.clone() };
            self.taken.set(unit, position + 1);
            return Some((entry, event));
        }
        proof {
            dispatcher::lemma_live_count_update(self.phases@, unit as int, Phase::Ended);
            dispatcher::lemma_live_count_positive(self.phases@, unit as int);
        }
        self.phases.set(unit, Phase::Ended);
        self.active = self.active - 1;
        None
    }
}

/// No file is read more often than the plan holds it.
pub proof fn lemma_no_entry_is_read_twice(queue: ReadQueue, entry: Entry)
    requires
        queue.wf(),
    ensures
        dispatcher::reported(queue.lists(), queue.taken@).count(entry)
            <= queue.lists().flatten().to_multiset().count(entry),
{
    dispatcher::lemma_reported_within(queue.lists(), queue.taken@, entry);
}

/// Once every worker is free and no further one is started, each file was handed out,
/// unless the run was stopped or cancelled.
pub proof fn lemma_finished_queue_has_handed_out_every_file(queue: ReadQueue)
    requires
        queue.wf(),
        queue.closed,
        queue.active == 0,
        !queue.stopped,
        !queue.stopped_by_cancel,
    ensures
        dispatcher::reported(queue.lists(), queue.taken@) == queue.lists().flatten().to_multiset(),
{
    assert forall|u: int| 0 <= u < queue.lists().len() implies (#[trigger] queue.taken@[u])
        == queue.lists()[u].len() by {
        dispatcher::lemma_no_live_unit(queue.phases@, u);
        assert(queue.phases@[u] == Phase::Ended);
    }
    dispatcher::lemma_all_reported(queue.lists(), queue.taken@);
}

/// Taking up one more entry of a unit takes up that entry alone.
pub proof fn lemma_entry_is_taken_up(queue: ReadQueue, unit: int)
    requires
        queue.wf(),
        0 <= unit < queue.units@.len(),
        queue.taken@[unit] < queue.units@[unit]@.len(),
    ensures
        dispatcher::reported(
            queue.lists(),
            queue.taken@.update(unit, (queue.taken@[unit] + 1) as usize),
        ) == dispatcher::reported(queue.lists(), queue.taken@).insert(
            queue.units@[unit]@[queue.taken@[unit] as int],
        ),
{
    assert(queue.lists()[unit].len() == queue.units@[unit].len());
    dispatcher::lemma_reported_step(queue.lists(), queue.taken@, unit);
}

/// Settings of a compression.
#[derive(Debug)]
pub struct CompressBuilder {
    pub source: FilePath,
    pub dest: FilePath,
    pub format: Option<CompressFormat>,
    pub small_file_threshold: Option<u64>,
    pub batch_config: BatchConfig,
    pub concurrency: Option<usize>,
}

impl CompressBuilder {
    /// A compression whose format goes by the destination's extension.
    pub fn new(source: FilePath, dest: FilePath) -> (r: CompressBuilder)
        ensures
            r == (CompressBuilder {
                source,
                dest,
                format: None,
                small_file_threshold: None,
                batch_config: config::default_config(),
                concurrency: None,
            }),
    {
        CompressBuilder {
            source,
            dest,
            format: None,
            small_file_threshold: None,
            batch_config: BatchConfig::default(),
            concurrency: None,
        }
    }

    /// The format, whatever the destination's extension is.
    pub fn format(self, format: CompressFormat) -> (r: CompressBuilder)
        ensures
            r == (CompressBuilder { format: Some(format), ..self }),
    {
        CompressBuilder { format: Some(format), ..self }
    }

    /// Files of at most this many bytes are batched.
    pub fn small_file_threshold(self, bytes: u64) -> (r: CompressBuilder)
        ensures
            r == (CompressBuilder { small_file_threshold: Some(bytes), ..self }),
    {
        CompressBuilder { small_file_threshold: Some(bytes), ..self }
    }

    /// What a failure of one entry does to the rest.
    pub fn on_error(self, strategy: ErrorStrategy) -> (r: CompressBuilder)
        ensures
            r == (CompressBuilder {
                batch_config: (BatchConfig { error_strategy: strategy, ..self.batch_config }),
                ..self
            }),
    {
        let mut out = self;
        out.batch_config.error_strategy = strategy;
        out
    }

    /// How many units of work run at a time.
    pub fn batch_concurrency(self, n: usize) -> (r: CompressBuilder)
        ensures
            r == (CompressBuilder { concurrency: Some(n), ..self }),
    {
        CompressBuilder { concurrency: Some(n), ..self }
    }
}

/// A file is read only where one is left, a worker is free, and the run was neither stopped
/// nor cancelled; and it is read then.
pub proof fn lemma_files_are_read_where_they_may(
    before: ReadQueue,
    after: ReadQueue,
    stopped: bool,
    cancelled: bool,
    r: Admission,
)
    requires
        before.wf(),
        before.admits(after, stopped, cancelled, r),
    ensures
        r is Start <==> !before.closed && !stopped && !cancelled && before.next
            < before.units@.len() && before.active < before.limit,
        r is Start ==> r->Start_0 == before.next && after.phases@[before.next as int]
            == Phase::Running && after.active == before.active + 1 && after.next == before.next + 1,
        r is Wait ==> before.active == before.limit && after == before,
        r is Finish <==> after.closed,
        r is Finish <==> before.closed || stopped || cancelled || before.next
            == before.units@.len(),
        after.stopped_by_cancel && !before.stopped_by_cancel ==> cancelled && before.next
            < before.units@.len(),
{
}

/// A worker reads the files of its unit in order, and none once the run is stopped.
pub proof fn lemma_worker_reads_the_next_file(
    before: ReadQueue,
    after: ReadQueue,
    unit: usize,
    stopped: bool,
    r: Option<(Entry, Progress)>,
)
    requires
        before.wf(),
        unit < before.units@.len(),
        before.hands_out(after, unit, stopped, r),
    ensures
        r is Some <==> !stopped && before.taken@[unit as int] < before.units@[unit as int]@.len(),
        r matches Some((entry, event)) ==> entry
            == before.units@[unit as int]@[before.taken@[unit as int] as int] && event == (
        Progress::EntryStarted { entry }) && after.taken@[unit as int] == before.taken@[unit as int]
            + 1,
        r is None ==> after.taken == before.taken && after.phases@[unit as int] == Phase::Ended,
        after.active == before.active - if r is None {
            1int
        } else {
            0
        },
{
    assert(before.units@[unit as int]@.len() == before.units@[unit as int].len());
}

/// A file is reported as archived if and only if it was written, and a failed one with what
/// the archive said of it; a failure stops the run unless failures are collected.
pub proof fn lemma_file_is_archived_as_it_went(
    writer: ArchiveWriter,
    now: OperationOutcome,
    entry: Entry,
    result: Result<(), String>,
    r: Progress,
)
    requires
        writer.takes_in(now, entry, result, r),
    ensures
        result is Ok ==> now.succeeded@ == writer.outcome.succeeded@.push(entry) && now.failed
            == writer.outcome.failed && r == (Progress::EntryCompleted { entry }),
        result is Err ==> now.succeeded == writer.outcome.succeeded && now.failed@.drop_last()
            == writer.outcome.failed@ && now.failed@.last().0 == entry && (
        now.failed@.last().1 matches Error::Io { path, source } && path == entry.path
            && source.message == result->Err_0) && r == (Progress::EntryFailed { entry }),
        writer.stopped() ==> now.stopped_early == writer.outcome.stopped_early,
        !writer.stopped() ==> (now.stopped_early is Some <==> result is Err && writer.strategy
            != ErrorStrategy::ContinueAndCollect),
{
    if result is Err {
        assert(now.failed@.drop_last() =~= writer.outcome.failed@);
    }
}

/// An archive is removed again exactly behind a run that a failure stopped, unless failures
/// are collected; nothing is reported as archived then. An archive that cannot be closed
/// fails the whole run.
pub proof fn lemma_stopped_archive_is_removed(
    writer: ArchiveWriter,
    closed: Result<(), String>,
    dest: FilePath,
    r: Result<(OperationOutcome, bool), Error>,
)
    requires
        writer.ends_with(closed, dest, r),
    ensures
        r is Ok <==> closed is Ok,
        r matches Ok((outcome, removed)) ==> {
            &&& removed <==> writer.outcome.stopped_early is Some && writer.strategy
                != ErrorStrategy::ContinueAndCollect
            &&& removed ==> outcome.succeeded@.len() == 0
            &&& !removed ==> outcome.succeeded == writer.outcome.succeeded
            &&& outcome.failed == writer.outcome.failed
            &&& outcome.stopped_early == writer.outcome.stopped_early
        },
        r matches Err(Error::Io { path, source }) ==> path == dest && source.message
            == closed->Err_0,
        r is Err ==> r->Err_0 is Io,
{
}

/// A cancelled run is told as cancelled unless a failure had stopped it before, and keeps its
/// archive only where failures are collected.
pub proof fn lemma_cancelled_archive_is_removed(
    outcome: OperationOutcome,
    cancelled: bool,
    strategy: ErrorStrategy,
    now: OperationOutcome,
    removed: bool,
)
    requires
        cancelled_as(outcome, cancelled, strategy, now, removed),
    ensures
        !cancelled || outcome.stopped_early is Some ==> now == outcome && !removed,
        cancelled && outcome.stopped_early is None ==> {
            &&& now.stopped_early == Some(StopReason::Cancelled)
            &&& removed <==> strategy != ErrorStrategy::ContinueAndCollect
            &&& removed ==> now.succeeded@.len() == 0
            &&& !removed ==> now.succeeded == outcome.succeeded
            &&& now.failed == outcome.failed
        },
{
}

/// The extension decides about the format, and nothing else does: exactly `zip` and `gz`
/// stand for one.
pub proof fn lemma_format_goes_by_the_extension(extension: Seq<char>)
    ensures
        format_of(Some(extension)) == Some(CompressFormat::Zip) <==> extension == seq![
            'z',
            'i',
            'p',
        ],
        format_of(Some(extension)) == Some(CompressFormat::Gzip) <==> extension == seq!['g', 'z'],
        format_of(None) is None,
{
    reveal_strlit("zip");
    reveal_strlit("gz");
    assert("zip"@ =~= seq!['z', 'i', 'p']);
    assert("gz"@ =~= seq!['g', 'z']);
    assert("zip"@.len() != "gz"@.len());
}

/// The format that was asked for is used; without one, a destination is refused if and only
/// if its extension stands for none, and the refusal names it.
pub proof fn lemma_asked_format_wins(format: Option<CompressFormat>, dest: FilePath)
    ensures
        format is Some ==> resolved(format, dest) == Ok::<CompressFormat, Error>(format->0),
        format is None ==> (resolved(format, dest) is Err <==> format_of(
            paths::extension_of(dest@),
        ) is None),
        resolved(format, dest) is Err ==> resolved(format, dest)->Err_0 == (
        Error::UnknownCompressFormat { path: dest }),
        format is None && resolved(format, dest) is Ok ==> Some(resolved(format, dest)->Ok_0)
            == format_of(paths::extension_of(dest@)),
{
}

/// Only a file can be put into a gzip stream: a directory is refused, and what could not be
/// looked at is told as it failed.
pub proof fn lemma_gzip_takes_files_only(is_dir: Result<bool, IoFailure>, source: FilePath)
    ensures
        gzip_refusal(is_dir, source) is None <==> is_dir is Ok && !is_dir->Ok_0,
        is_dir is Ok && is_dir->Ok_0 ==> gzip_refusal(is_dir, source) == Some(
            Error::GzipRequiresFile { path: source },
        ),
        is_dir is Err ==> !(gzip_refusal(is_dir, source)->0 is GzipRequiresFile),
        is_dir is Err && is_dir->Err_0.kind != IoKind::StorageFull ==> error::error_path(
            gzip_refusal(is_dir, source)->0,
        ) == source.text@,
{
}

/// A gzip stream succeeds if and only if its file was compressed, and is told as what it came
/// to.
pub proof fn lemma_gzip_is_reported_as_it_went(
    entry: Entry,
    result: Result<(), Error>,
    event: Progress,
    r: Result<OperationOutcome, Error>,
)
    requires
        gzip_came_to(entry, result, event, r),
    ensures
        r is Ok <==> result is Ok,
        r is Err ==> r->Err_0 == result->Err_0 && event == (Progress::EntryFailed { entry }),
        r is Ok ==> r->Ok_0.succeeded@.len() == 1 && r->Ok_0.succeeded@[0] == entry
            && r->Ok_0.failed@.len() == 0 && r->Ok_0.stopped_early is None && event == (
        Progress::EntryCompleted { entry }),
{
}

/// A file that could not be read is reported as failed, never as archived, and stops the run
/// unless failures are collected and the failure is not fatal.
pub proof fn lemma_unreadable_file_is_reported(
    writer: ArchiveWriter,
    now: OperationOutcome,
    entry: Entry,
    failure: IoFailure,
)
    requires
        writer.misses(now, entry, failure),
    ensures
        now.succeeded == writer.outcome.succeeded,
        now.failed@.len() == writer.outcome.failed@.len() + 1,
        now.failed@.last().0 == entry,
        failure.kind == IoKind::PermissionDenied <==> now.failed@.last().1 is PermissionDenied,
        failure.kind == IoKind::NotFound <==> now.failed@.last().1 is SourceNotFound,
        writer.outcome.stopped_early is Some ==> now.stopped_early == writer.outcome.stopped_early,
        writer.outcome.stopped_early is None ==> (now.stopped_early is None <==> writer.strategy
            == ErrorStrategy::ContinueAndCollect && failure.kind != IoKind::StorageFull),
{
}

/// Nothing that is read changes what there is to read, or by how many at a time.
pub proof fn lemma_queue_stays(before: ReadQueue, after: ReadQueue)
    requires
        after.same_files(before),
    ensures
        after.units == before.units,
        after.lists() == before.lists(),
        after.limit == before.limit,
{
}

} // verus!
