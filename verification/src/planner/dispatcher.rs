use vstd::multiset::Multiset;
use vstd::prelude::*;

use super::action::EntryOutcome;
use super::batch;
use super::config;
use super::config::{BatchConfig, ErrorStrategy};
use super::outcome;
use super::outcome::{OperationOutcome, StopReason};
use super::plan;
use super::plan::ExecutionPlan;
use crate::error;
use crate::error::Error;
use crate::profiler;
use crate::profiler::{Entry, Workload};
use crate::progress::Progress;

verus! {

/// The entries of each unit of work.
pub open spec fn unit_entries(units: Seq<Vec<Entry>>) -> Seq<Seq<Entry>> {
    units.map_values(|u: Vec<Entry>| u@)
}

/// The units of a plan: every batch, and then every stream as a unit of one entry.
pub open spec fn plan_units(plan: ExecutionPlan) -> Seq<Seq<Entry>> {
    batch::contents(plan.batches@) + plan::streamed(plan.streams@).map_values(|e: Entry| seq![e])
}

/// The sum of what the batches state as their totals.
pub open spec fn batch_bytes(batches: Seq<batch::Batch>) -> int
    decreases batches.len(),
{
    if batches.len() == 0 {
        0
    } else {
        batch_bytes(batches.drop_last()) + batches.last().total_bytes
    }
}

/// How many bytes a plan moves.
pub open spec fn plan_bytes(plan: ExecutionPlan) -> int {
    batch_bytes(plan.batches@) + profiler::sizes_sum(plan::streamed(plan.streams@))
}

/// How many entries the units have together.
pub open spec fn units_len(units: Seq<Seq<Entry>>) -> int
    decreases units.len(),
{
    if units.len() == 0 {
        0
    } else {
        units_len(units.drop_last()) + units.last().len()
    }
}

/// The totals of a plan, or `None` where one of them is too large to be counted.
pub fn plan_totals(plan: &ExecutionPlan) -> (r: Option<(u64, usize)>)
    ensures
        match r {
            Some((bytes, entries)) => bytes == plan_bytes(*plan) && entries == units_len(
                plan_units(*plan),
            ),
            None => plan_bytes(*plan) > u64::MAX || units_len(plan_units(*plan)) > usize::MAX,
        },
{
    let ghost units = plan_units(*plan);
    let ghost lists = batch::contents(plan.batches@);
    let ghost streamed = plan::streamed(plan.streams@);
    proof {
        lemma_sums_grow(plan.batches@, streamed);
        assert(units.take(0) =~= Seq::<Seq<Entry>>::empty());
        assert(plan.batches@.take(0) =~= Seq::<batch::Batch>::empty());
    }
    let mut bytes: u64 = 0;
    let mut entries: usize = 0;
    let mut i: usize = 0;
    while i < plan.batches.len()
        invariant
            i <= plan.batches@.len(),
            units == plan_units(*plan),
            bytes == batch_bytes(plan.batches@.take(i as int)),
            entries == units_len(units.take(i as int)),
            forall|k: int|
                0 <= k <= plan.batches@.len() ==> batch_bytes(#[trigger] plan.batches@.take(k))
                    <= plan_bytes(*plan),
        decreases plan.batches@.len() - i,
    {
        proof {
            assert(plan.batches@.take(i + 1).drop_last() =~= plan.batches@.take(i as int));
            assert(units.take(i + 1).drop_last() =~= units.take(i as int));
            assert(units[i as int] == plan.batches@[i as int].entries@);
            lemma_units_len_grows(units, i + 1);
        }
        let batch = &plan.batches[i];
        match bytes.checked_add(batch.total_bytes) {
            Some(sum) => {
                bytes = sum;
            },
            None => {
                return None;
            },
        }
        match entries.checked_add(batch.entries.len()) {
            Some(sum) => {
                entries = sum;
            },
            None => {
                return None;
            },
        }
        i = i + 1;
    }
    assert(plan.batches@.take(plan.batches@.len() as int) =~= plan.batches@);
    assert(streamed.take(0) =~= Seq::<Entry>::empty());
    let count: usize = plan.batches.len();
    let mut j: usize = 0;
    while j < plan.streams.len()
        invariant
            j <= plan.streams@.len(),
            count == plan.batches@.len(),
            units == plan_units(*plan),
            streamed == plan::streamed(plan.streams@),
            bytes == batch_bytes(plan.batches@) + profiler::sizes_sum(streamed.take(j as int)),
            entries == units_len(units.take(count + j)),
            forall|k: int|
                0 <= k <= streamed.len() ==> profiler::sizes_sum(#[trigger] streamed.take(k))
                    <= profiler::sizes_sum(streamed),
        decreases plan.streams@.len() - j,
    {
        proof {
            assert(streamed.take(j + 1).drop_last() =~= streamed.take(j as int));
            assert(units.take(count + j + 1).drop_last() =~= units.take(count + j));
            assert(units[count + j] =~= seq![plan.streams@[j as int].entry]);
            lemma_units_len_grows(units, count + j + 1);
        }
        match bytes.checked_add(plan.streams[j].entry.size) {
            Some(sum) => {
                bytes = sum;
            },
            None => {
                return None;
            },
        }
        match entries.checked_add(1) {
            Some(sum) => {
                entries = sum;
            },
            None => {
                return None;
            },
        }
        j = j + 1;
    }
    assert(streamed.take(streamed.len() as int) =~= streamed);
    assert(units.take(units.len() as int) =~= units);
    Some((bytes, entries))
}

proof fn lemma_units_len_grows(units: Seq<Seq<Entry>>, count: int)
    requires
        0 <= count <= units.len(),
    ensures
        0 <= units_len(units.take(count)) <= units_len(units),
    decreases units.len() - count,
{
    if count < units.len() {
        lemma_units_len_grows(units, count + 1);
        assert(units.take(count + 1).drop_last() =~= units.take(count));
    } else {
        assert(units.take(count) =~= units);
    }
    lemma_units_len_is_not_negative(units.take(count));
}

proof fn lemma_units_len_is_not_negative(units: Seq<Seq<Entry>>)
    ensures
        0 <= units_len(units),
    decreases units.len(),
{
    if units.len() > 0 {
        lemma_units_len_is_not_negative(units.drop_last());
    }
}

proof fn lemma_batch_bytes_grow(batches: Seq<batch::Batch>, count: int)
    requires
        0 <= count <= batches.len(),
    ensures
        batch_bytes(batches.take(count)) <= batch_bytes(batches),
    decreases batches.len() - count,
{
    if count < batches.len() {
        lemma_batch_bytes_grow(batches, count + 1);
        assert(batches.take(count + 1).drop_last() =~= batches.take(count));
    } else {
        assert(batches.take(count) =~= batches);
    }
}

proof fn lemma_sums_grow(batches: Seq<batch::Batch>, streamed: Seq<Entry>)
    ensures
        forall|k: int|
            0 <= k <= batches.len() ==> batch_bytes(#[trigger] batches.take(k)) <= batch_bytes(
                batches,
            ) + profiler::sizes_sum(streamed),
        forall|k: int|
            0 <= k <= streamed.len() ==> profiler::sizes_sum(#[trigger] streamed.take(k))
                <= profiler::sizes_sum(streamed),
{
    assert forall|k: int| 0 <= k <= streamed.len() implies profiler::sizes_sum(
        #[trigger] streamed.take(k),
    ) <= profiler::sizes_sum(streamed) by {
        profiler::lemma_sizes_sum_grows(streamed, k);
    }
    profiler::lemma_sizes_sum_grows(streamed, 0);
    assert(streamed.take(0) =~= Seq::<Entry>::empty());
    assert forall|k: int| 0 <= k <= batches.len() implies batch_bytes(#[trigger] batches.take(k))
        <= batch_bytes(batches) + profiler::sizes_sum(streamed) by {
        lemma_batch_bytes_grow(batches, k);
    }
}

/// How far a unit is.
#[derive(Debug, Clone, Copy, PartialEq, Eq, Structural)]
pub enum Phase {
    Queued,
    Running,
    /// One of its entries failed in a way that stops the operation: the unit takes up
    /// no further entry.
    Stopping,
    Ended,
}

/// What the pool does next.
#[derive(Debug, Clone, Copy, PartialEq, Eq, Structural)]
pub enum Admission {
    /// Give the unit at this position to a worker.
    Start(usize),
    /// Every worker is busy.
    Wait,
    /// No further unit is started.
    Finish,
}

/// The state of a plan that a pool of workers carries out. The pool asks which unit
/// to start, and each worker asks for its unit's next entry and reports what became
/// of it.
pub struct Dispatcher {
    pub units: Vec<Vec<Entry>>,
    /// How many entries of each unit have been reported.
    pub done: Vec<usize>,
    pub phases: Vec<Phase>,
    /// The first unit that is still queued.
    pub next: usize,
    /// How many workers have a unit.
    pub active: usize,
    pub limit: usize,
    pub strategy: ErrorStrategy,
    /// No further unit is started.
    pub closed: bool,
    pub stopped_by_cancel: bool,
    pub outcome: OperationOutcome,
}

/// Whether a worker has the unit.
pub open spec fn is_live(phase: Phase) -> bool {
    phase == Phase::Running || phase == Phase::Stopping
}

/// How many units workers have.
pub open spec fn live_count(phases: Seq<Phase>) -> int
    decreases phases.len(),
{
    if phases.len() == 0 {
        0
    } else {
        live_count(phases.drop_last()) + if is_live(phases.last()) {
            1int
        } else {
            0
        }
    }
}

/// The entries that have been reported: of each unit the first ones, as many as are
/// done.
pub open spec fn reported(units: Seq<Seq<Entry>>, done: Seq<usize>) -> Multiset<Entry>
    decreases units.len(),
{
    if units.len() == 0 {
        Multiset::empty()
    } else {
        reported(units.drop_last(), done.drop_last()).add(
            units.last().take(done.last() as int).to_multiset(),
        )
    }
}

/// The entries that an outcome accounts for.
pub open spec fn accounted(outcome: OperationOutcome) -> Multiset<Entry> {
    outcome.succeeded@.to_multiset().add(outcome.skipped@.to_multiset()).add(
        failed_entries(outcome.failed@).to_multiset(),
    )
}

/// The entries of a list of failures.
pub open spec fn failed_entries(failed: Seq<(Entry, Error)>) -> Seq<Entry> {
    failed.map_values(|f: (Entry, Error)| f.0)
}

impl Dispatcher {
    /// The entries of each unit.
    pub open spec fn lists(self) -> Seq<Seq<Entry>> {
        unit_entries(self.units@)
    }

    /// Whether some failure has stopped the operation.
    pub open spec fn stopped(self) -> bool {
        self.outcome.stopped_early is Some
    }

    pub open spec fn wf(self) -> bool {
        &&& self.done@.len() == self.units@.len()
        &&& self.phases@.len() == self.units@.len()
        &&& self.next <= self.units@.len()
        &&& 1 <= self.limit
        &&& self.active <= self.limit
        &&& self.active == live_count(self.phases@)
        &&& forall|u: int|
            0 <= u < self.units@.len() ==> (#[trigger] self.done@[u]) <= self.units@[u]@.len()
        &&& forall|u: int|
            0 <= u < self.units@.len() ==> ((#[trigger] self.phases@[u]) == Phase::Queued <==> u
                >= self.next)
        &&& forall|u: int|
            self.next <= u < self.units@.len() ==> (#[trigger] self.done@[u]) == 0
        &&& forall|u: int|
            0 <= u < self.units@.len() && (#[trigger] self.phases@[u]) == Phase::Ended
                && !self.stopped() ==> self.done@[u] == self.units@[u]@.len()
        &&& forall|u: int|
            0 <= u < self.units@.len() && (#[trigger] self.phases@[u]) == Phase::Stopping
                ==> self.stopped()
        &&& self.outcome.stopped_early == outcome::first_reason(
            self.strategy,
            self.outcome.failed@,
        )
        &&& accounted(self.outcome) == reported(self.lists(), self.done@)
        &&& self.closed ==> self.next == self.units@.len() || self.stopped()
            || self.stopped_by_cancel
        &&& self.outcome.cleanup_failed@.len() == 0
        &&& self.outcome.directories_failed@.len() == 0
        &&& self.outcome.sources_failed@.len() == 0
        &&& self.outcome.duration.length() == 0
    }

    /// Whether `r` is what the pool does next, and `after` the state behind it.
    pub open spec fn admits(self, after: Dispatcher, cancelled: bool, r: Admission) -> bool {
        if self.closed || self.next == self.units@.len() || self.stopped() {
            &&& r == Admission::Finish
            &&& after.closed
            &&& after.stopped_by_cancel == self.stopped_by_cancel
            &&& after.next == self.next
            &&& after.active == self.active
            &&& after.phases == self.phases
        } else if cancelled {
            &&& r == Admission::Finish
            &&& after.closed
            &&& after.stopped_by_cancel
            &&& after.next == self.next
            &&& after.active == self.active
            &&& after.phases == self.phases
        } else if self.active == self.limit {
            &&& r == Admission::Wait
            &&& after == self
        } else {
            &&& r == Admission::Start(self.next)
            &&& !after.closed
            &&& after.stopped_by_cancel == self.stopped_by_cancel
            &&& after.next == self.next + 1
            &&& after.active == self.active + 1
            &&& after.phases@ == self.phases@.update(
                self.next as int,
                Phase::Running,
            )
        }
    }

    /// Whether `r` is what the worker of `unit` takes up next, and `after` the state behind it.
    pub open spec fn hands_out(
        self,
        after: Dispatcher,
        unit: usize,
        r: Option<(Entry, Progress)>,
    ) -> bool {
        if self.phases@[unit as int] == Phase::Running && self.done@[unit as int]
            < self.units@[unit as int]@.len() {
            let entry = self.units@[unit as int]@[self.done@[unit as int] as int];
            &&& r == Some((entry, Progress::EntryStarted { entry }))
            &&& after == self
        } else {
            &&& r is None
            &&& after.active == self.active - 1
            &&& after.phases@ == self.phases@.update(unit as int, Phase::Ended)
        }
    }

    /// Whether `after` is the state behind the report that the entry of `unit` came to
    /// `result`, and `r` the event that tells of it.
    pub open spec fn takes_in(
        self,
        after: Dispatcher,
        unit: usize,
        result: Result<EntryOutcome, Error>,
        r: Progress,
    ) -> bool {
        let entry = self.units@[unit as int]@[self.done@[unit as int] as int];
        let was = self.outcome;
        let now = after.outcome;
        match result {
            Ok(EntryOutcome::Written) => {
                &&& r == (Progress::EntryCompleted { entry })
                &&& now.succeeded@ == was.succeeded@.push(entry)
                &&& now.skipped == was.skipped
                &&& now.failed == was.failed
                &&& now.stopped_early == was.stopped_early
                &&& after.phases == self.phases
            },
            Ok(EntryOutcome::Skipped) => {
                &&& r == (Progress::EntryCompleted { entry })
                &&& now.succeeded == was.succeeded
                &&& now.skipped@ == was.skipped@.push(entry)
                &&& now.failed == was.failed
                &&& now.stopped_early == was.stopped_early
                &&& after.phases == self.phases
            },
            Err(error) => {
                let reason = outcome::reason_for(self.strategy, error);
                &&& r == (Progress::EntryFailed { entry })
                &&& now.succeeded == was.succeeded
                &&& now.skipped == was.skipped
                &&& now.failed@ == was.failed@.push((entry, error))
                &&& now.stopped_early == if was.stopped_early is Some {
                    was.stopped_early
                } else {
                    reason
                }
                &&& after.phases@ == if reason is Some {
                    self.phases@.update(unit as int, Phase::Stopping)
                } else {
                    self.phases@
                }
            },
        }
        
    }

    /// Whether the plan itself is as it was: only the progress differs.
    pub open spec fn same_plan(self, other: Dispatcher) -> bool {
        &&& self.units == other.units
        &&& self.limit == other.limit
        &&& self.strategy == other.strategy
    }
}

pub proof fn lemma_live_count_update(phases: Seq<Phase>, u: int, phase: Phase)
    requires
        0 <= u < phases.len(),
    ensures
        live_count(phases.update(u, phase)) == live_count(phases) + (if is_live(phase) {
            1int
        } else {
            0
        }) - (if is_live(phases[u]) {
            1int
        } else {
            0
        }),
    decreases phases.len(),
{
    let changed = phases.update(u, phase);
    if u == phases.len() - 1 {
        assert(changed.drop_last() =~= phases.drop_last());
    } else {
        assert(changed.drop_last() =~= phases.drop_last().update(u, phase));
        lemma_live_count_update(phases.drop_last(), u, phase);
    }
}

/// While a worker has the unit, at least one worker is counted.
pub proof fn lemma_live_count_positive(phases: Seq<Phase>, u: int)
    requires
        0 <= u < phases.len(),
        is_live(phases[u]),
    ensures
        live_count(phases) >= 1,
    decreases phases.len(),
{
    lemma_live_count_not_negative(phases.drop_last());
    if u < phases.len() - 1 {
        lemma_live_count_positive(phases.drop_last(), u);
    }
}

pub proof fn lemma_live_count_not_negative(phases: Seq<Phase>)
    ensures
        live_count(phases) >= 0,
    decreases phases.len(),
{
    if phases.len() > 0 {
        lemma_live_count_not_negative(phases.drop_last());
    }
}

/// Where no worker is counted, no worker has a unit.
pub proof fn lemma_no_live_unit(phases: Seq<Phase>, u: int)
    requires
        live_count(phases) == 0,
        0 <= u < phases.len(),
    ensures
        !is_live(phases[u]),
{
    if is_live(phases[u]) {
        lemma_live_count_positive(phases, u);
    }
}

/// Reporting one more entry of unit `u` adds that entry.
pub proof fn lemma_reported_step(units: Seq<Seq<Entry>>, done: Seq<usize>, u: int)
    requires
        done.len() == units.len(),
        0 <= u < units.len(),
        done[u] < units[u].len(),
        units[u].len() <= usize::MAX,
    ensures
        reported(units, done.update(u, (done[u] + 1) as usize)) == reported(units, done).insert(
            units[u][done[u] as int],
        ),
    decreases units.len(),
{
    broadcast use vstd::seq_lib::group_to_multiset_ensures;

    let next = done.update(u, (done[u] + 1) as usize);
    let entry = units[u][done[u] as int];
    if u == units.len() - 1 {
        assert(next.drop_last() =~= done.drop_last());
        let list = units.last();
        assert(list.take(next.last() as int) =~= list.take(done.last() as int).push(entry));
        assert(reported(units, next) =~= reported(units, done).insert(entry));
    } else {
        assert(next.drop_last() =~= done.drop_last().update(u, (done[u] + 1) as usize));
        lemma_reported_step(units.drop_last(), done.drop_last(), u);
        assert(reported(units, next) =~= reported(units, done).insert(entry));
    }
}

/// Where every unit is done, all of the entries have been reported.
pub proof fn lemma_all_reported(units: Seq<Seq<Entry>>, done: Seq<usize>)
    requires
        done.len() == units.len(),
        forall|u: int| 0 <= u < units.len() ==> (#[trigger] done[u]) == units[u].len(),
    ensures
        reported(units, done) == units.flatten().to_multiset(),
    decreases units.len(),
{
    broadcast use vstd::seq_lib::group_to_multiset_ensures;

    if units.len() > 0 {
        let front = units.drop_last();
        assert forall|u: int| 0 <= u < front.len() implies (#[trigger] done.drop_last()[u])
            == front[u].len() by {
            assert(done[u] == units[u].len());
        }
        lemma_all_reported(front, done.drop_last());
        assert(done[units.len() - 1] == units.last().len());
        assert(units.last().take(done.last() as int) =~= units.last());
        front.lemma_flatten_push(units.last());
        assert(front.push(units.last()) =~= units);
        vstd::seq_lib::lemma_multiset_commutative(front.flatten(), units.last());
    } else {
        assert(units.flatten() =~= Seq::<Entry>::empty());
    }
}

/// Where nothing has been done, nothing has been reported.
pub proof fn lemma_none_reported(units: Seq<Seq<Entry>>, done: Seq<usize>)
    requires
        done.len() == units.len(),
        forall|u: int| 0 <= u < units.len() ==> (#[trigger] done[u]) == 0,
    ensures
        reported(units, done) == Multiset::<Entry>::empty(),
    decreases units.len(),
{
    broadcast use vstd::seq_lib::group_to_multiset_ensures;

    if units.len() > 0 {
        let front = units.drop_last();
        assert forall|u: int| 0 <= u < front.len() implies (#[trigger] done.drop_last()[u]) == 0 by {
            assert(done[u] == 0);
        }
        lemma_none_reported(front, done.drop_last());
        assert(done[units.len() - 1] == 0);
        assert(units.last().take(0) =~= Seq::<Entry>::empty());
        assert(reported(units, done) =~= Multiset::<Entry>::empty());
    }
}

/// Turns a plan into its units.
pub fn take_units(plan: ExecutionPlan) -> (r: Vec<Vec<Entry>>)
    ensures
        unit_entries(r@) == plan_units(plan),
{
    let ghost batches = plan.batches@;
    let ghost jobs = plan.streams@;
    let ghost lists = batch::contents(batches);
    let ghost singles = plan::streamed(jobs).map_values(|e: Entry| seq![e]);
    let mut units: Vec<Vec<Entry>> = Vec::new();
    for batch in it: plan.batches
        invariant
            it.seq() == batches,
            lists == batch::contents(batches),
            unit_entries(units@) == lists.take(it.index()),
    {
        let ghost before = units@;
        let ghost added = batch.entries@;
        units.push(batch.entries);
        assert(unit_entries(units@) =~= unit_entries(before).push(added));
        assert(lists.take(it.index() + 1) =~= lists.take(it.index()).push(added));
    }
    assert(lists.take(lists.len() as int) =~= lists);
    assert(unit_entries(units@) =~= lists + singles.take(0));
    for job in it: plan.streams
        invariant
            it.seq() == jobs,
            singles == plan::streamed(jobs).map_values(|e: Entry| seq![e]),
            unit_entries(units@) == lists + singles.take(it.index()),
    {
        let ghost before = units@;
        let mut unit: Vec<Entry> = Vec::with_capacity(1);
        unit.push(job.entry);
        let ghost added = unit@;
        units.push(unit);
        assert(unit_entries(units@) =~= unit_entries(before).push(added));
        assert(added =~= singles[it.index()]);
        assert(lists + singles.take(it.index() + 1) =~= (lists + singles.take(it.index())).push(
            added,
        ));
    }
    assert(singles.take(singles.len() as int) =~= singles);
    units
}

impl Dispatcher {
    /// The state before any unit is started, and the event that announces the work. A
    /// pool has at least one worker.
    pub fn new(plan: ExecutionPlan, strategy: ErrorStrategy, concurrency: usize) -> (r: (
        Dispatcher,
        Progress,
    ))
        requires
            plan_bytes(plan) <= u64::MAX,
            units_len(plan_units(plan)) <= usize::MAX,
        ensures
            r.0.wf(),
            r.0.lists() == plan_units(plan),
            r.0.next == 0,
            r.0.active == 0,
            r.0.limit == if concurrency == 0 {
                1
            } else {
                concurrency
            },
            r.0.limit >= 1,
            r.0.limit >= concurrency,
            concurrency >= 1 ==> r.0.limit <= concurrency,
            r.0.strategy == strategy,
            !r.0.closed,
            !r.0.stopped_by_cancel,
            r.0.outcome.is_blank(),
            r.1 == (Progress::Started {
                bytes_total: Some(plan_bytes(plan) as u64),
                entries_total: units_len(plan_units(plan)) as usize,
            }),
    {
        let (bytes, entries) = match plan_totals(&plan) {
            Some(totals) => totals,
            None => {
                assert(false);
                (0u64, 0usize)
            },
        };
        let units = take_units(plan);
        let mut done: Vec<usize> = Vec::with_capacity(units.len());
        let mut phases: Vec<Phase> = Vec::with_capacity(units.len());
        let mut u: usize = 0;
        assert(live_count(phases@) == 0);
        while u < units.len()
            invariant
                u <= units@.len(),
                done@.len() == u,
                phases@.len() == u,
                forall|v: int| 0 <= v < u ==> (#[trigger] done@[v]) == 0,
                forall|v: int| 0 <= v < u ==> (#[trigger] phases@[v]) == Phase::Queued,
                live_count(phases@) == 0,
            decreases units@.len() - u,
        {
            let ghost before = phases@;
            done.push(0);
            phases.push(Phase::Queued);
            assert(phases@.drop_last() =~= before);
            u = u + 1;
        }
        let outcome = OperationOutcome::default();
        proof {
            broadcast use vstd::seq_lib::group_to_multiset_ensures;

            lemma_none_reported(unit_entries(units@), done@);
            assert(failed_entries(outcome.failed@) =~= Seq::<Entry>::empty());
            assert(accounted(outcome) =~= Multiset::<Entry>::empty());
        }
        let dispatcher = Dispatcher {
            units,
            done,
            phases,
            next: 0,
            active: 0,
            limit: if concurrency == 0 {
                1
            } else {
                concurrency
            },
            strategy,
            closed: false,
            stopped_by_cancel: false,
            outcome,
        };
        (dispatcher, Progress::Started { bytes_total: Some(bytes), entries_total: entries })
    }

    /// Decides whether the next unit is started. Nothing is started once a failure has
    /// stopped the operation or it was cancelled; units that workers have go on.
    pub fn next_unit(&mut self, cancelled: bool) -> (r: Admission)
        requires
            old(self).wf(),
        ensures
            final(self).wf(),
            final(self).same_plan(*old(self)),
            final(self).done == old(self).done,
            final(self).outcome == old(self).outcome,
            old(self).admits(*final(self), cancelled, r),
    {
        if self.closed || self.next == self.units.len() || self.outcome.stopped_early.is_some() {
            self.closed = true;
            return Admission::Finish;
        }
        if cancelled {
            self.closed = true;
            self.stopped_by_cancel = true;
            return Admission::Finish;
        }
        if self.active == self.limit {
            return Admission::Wait;
        }
        let unit: usize = self.next;
        proof {
            lemma_live_count_update(self.phases@, unit as int, Phase::Running);
        }
        self.phases.set(unit, Phase::Running);
        self.next = unit + 1;
        self.active = self.active + 1;
        Admission::Start(unit)
    }

    /// The entry that a worker takes up next, with the event that announces it, or
    /// `None` where the unit has ended: the worker is then free.
    pub fn next_entry(&mut self, unit: usize) -> (r: Option<(Entry, Progress)>)
        requires
            old(self).wf(),
            unit < old(self).units@.len(),
            is_live(old(self).phases@[unit as int]),
        ensures
            final(self).wf(),
            final(self).same_plan(*old(self)),
            final(self).done == old(self).done,
            final(self).outcome == old(self).outcome,
            final(self).next == old(self).next,
            final(self).closed == old(self).closed,
            final(self).stopped_by_cancel == old(self).stopped_by_cancel,
            old(self).hands_out(*final(self), unit, r),
    {
        let running = match self.phases[unit] {
            Phase::Running => true,
            _ => false,
        };
        let position: usize = self.done[unit];
        if running && position < self.units[unit].len() {
            let entry = self.units[unit][position].clone();
            let event = Progress::EntryStarted { entry: entry.clone() };
            return Some((entry, event));
        }
        proof {
            lemma_live_count_update(self.phases@, unit as int, Phase::Ended);
            lemma_live_count_positive(self.phases@, unit as int);
        }
        self.phases.set(unit, Phase::Ended);
        self.active = self.active - 1;
        None
    }

    /// Reports what became of the entry that the worker of `unit` took up, and gives the
    /// event that tells of it. A failure that stops the operation ends the unit too; the
    /// first such failure gives the reason.
    pub fn finish_entry(&mut self, unit: usize, result: Result<EntryOutcome, Error>) -> (r: Progress)
        requires
            old(self).wf(),
            unit < old(self).units@.len(),
            old(self).phases@[unit as int] == Phase::Running,
            old(self).done@[unit as int] < old(self).units@[unit as int]@.len(),
        ensures
            final(self).wf(),
            final(self).same_plan(*old(self)),
            final(self).next == old(self).next,
            final(self).active == old(self).active,
            final(self).closed == old(self).closed,
            final(self).stopped_by_cancel == old(self).stopped_by_cancel,
            final(self).done@ == old(self).done@.update(
                unit as int,
                (old(self).done@[unit as int] + 1) as usize,
            ),
            old(self).takes_in(*final(self), unit, result, r),
    {
        broadcast use vstd::seq_lib::group_to_multiset_ensures;

        let position: usize = self.done[unit];
        let entry = self.units[unit][position].clone();
        proof {
            assert(self.lists()[unit as int].len() == self.units@[unit as int].len());
            lemma_reported_step(self.lists(), self.done@, unit as int);
        }
        self.done.set(unit, position + 1);
        match result {
            Ok(EntryOutcome::Written) => {
                let event = Progress::EntryCompleted { entry: entry.clone() };
                self.outcome.succeeded.push(entry);
                assert(accounted(self.outcome) =~= accounted(old(self).outcome).insert(entry));
                event
            },
            Ok(EntryOutcome::Skipped) => {
                let event = Progress::EntryCompleted { entry: entry.clone() };
                self.outcome.skipped.push(entry);
                assert(accounted(self.outcome) =~= accounted(old(self).outcome).insert(entry));
                event
            },
            Err(error) => {
                let event = Progress::EntryFailed { entry: entry.clone() };
                let reason = outcome::stop_reason_for(self.strategy, &error);
                self.outcome.failed.push((entry, error));
                proof {
                    assert(self.outcome.failed@.drop_last() =~= old(self).outcome.failed@);
                    assert(failed_entries(self.outcome.failed@) =~= failed_entries(
                        old(self).outcome.failed@,
                    ).push(entry));
                    assert(accounted(self.outcome) =~= accounted(old(self).outcome).insert(entry));
                }
                if reason.is_some() {
                    if self.outcome.stopped_early.is_none() {
                        self.outcome.stopped_early = reason;
                    }
                    proof {
                        lemma_live_count_update(self.phases@, unit as int, Phase::Stopping);
                    }
                    self.phases.set(unit, Phase::Stopping);
                }
                event
            },
        }
    }
}

/// Why the operation ended early: the first failure that stopped it, or else that it
/// was cancelled.
pub open spec fn final_reason(
    strategy: ErrorStrategy,
    failed: Seq<(Entry, Error)>,
    stopped_by_cancel: bool,
) -> Option<StopReason> {
    match outcome::first_reason(strategy, failed) {
        Some(reason) => Some(reason),
        None => if stopped_by_cancel {
            Some(StopReason::Cancelled)
        } else {
            None
        },
    }
}

/// Whether what succeeded is taken back.
pub open spec fn takes_back(strategy: ErrorStrategy, reason: Option<StopReason>) -> bool {
    strategy == ErrorStrategy::Undo && reason is Some
}

/// Whether an operation that `done` succeeded in reports it, or takes it back from the last
/// to the first.
pub open spec fn settles(
    done: Seq<Entry>,
    strategy: ErrorStrategy,
    outcome: OperationOutcome,
    undone: Seq<Entry>,
) -> bool {
    if takes_back(strategy, outcome.stopped_early) {
        &&& outcome.succeeded@.len() == 0
        &&& undone == done.reverse()
    } else {
        &&& outcome.succeeded@ == done
        &&& undone.len() == 0
    }
}

/// `entries` from the last to the first.
pub fn reversed(entries: &Vec<Entry>) -> (r: Vec<Entry>)
    ensures
        r@ == entries@.reverse(),
{
    let mut out: Vec<Entry> = Vec::with_capacity(entries.len());
    let mut i: usize = entries.len();
    while i > 0
        invariant
            i <= entries@.len(),
            out@.len() == entries@.len() - i,
            forall|j: int|
                0 <= j < out@.len() ==> #[trigger] out@[j] == entries@[entries@.len() - 1 - j],
        decreases i,
    {
        i = i - 1;
        out.push(entries[i].clone());
    }
    assert(out@ =~= entries@.reverse());
    out
}

impl Dispatcher {
    /// The outcome once every worker is done, and the entries to be taken back, in the
    /// order in which that happens: what succeeded last comes first.
    ///
    /// An operation that did not end early accounts for every entry of its plan exactly
    /// once.
    pub fn conclude(self) -> (r: (OperationOutcome, Vec<Entry>))
        requires
            self.wf(),
            self.closed,
            self.active == 0,
        ensures
            r.0.stopped_early == final_reason(
                self.strategy,
                self.outcome.failed@,
                self.stopped_by_cancel,
            ),
            r.0.failed == self.outcome.failed,
            r.0.skipped == self.outcome.skipped,
            r.0.cleanup_failed@.len() == 0,
            r.0.directories_failed@.len() == 0,
            r.0.sources_failed@.len() == 0,
            r.0.duration.length() == 0,
            settles(self.outcome.succeeded@, self.strategy, r.0, r.1@),
            !takes_back(self.strategy, r.0.stopped_early) ==> r.0.succeeded
                == self.outcome.succeeded,
            r.0.stopped_early is None ==> accounted(r.0) == self.lists().flatten().to_multiset(),
    {
        proof {
            if !self.stopped() && !self.stopped_by_cancel {
                self.lemma_unstopped_run_is_complete();
            }
        }
        let mut outcome = self.outcome;
        if self.stopped_by_cancel && outcome.stopped_early.is_none() {
            outcome.stopped_early = Some(StopReason::Cancelled);
        }
        let undoing = match self.strategy {
            ErrorStrategy::Undo => true,
            _ => false,
        };
        let mut taken_back: Vec<Entry> = Vec::new();
        if undoing && outcome.stopped_early.is_some() {
            taken_back = reversed(&outcome.succeeded);
            outcome.succeeded.clear();
        }
        (outcome, taken_back)
    }

    /// The outcome once every worker is done, where what was done to an entry cannot be
    /// taken back: whatever stopped the operation, what succeeded is reported.
    pub fn conclude_kept(self) -> (r: OperationOutcome)
        requires
            self.wf(),
            self.closed,
            self.active == 0,
        ensures
            r.succeeded == self.outcome.succeeded,
            r.failed == self.outcome.failed,
            r.skipped == self.outcome.skipped,
            r.stopped_early == final_reason(
                self.strategy,
                self.outcome.failed@,
                self.stopped_by_cancel,
            ),
            r.cleanup_failed@.len() == 0,
            r.directories_failed@.len() == 0,
            r.sources_failed@.len() == 0,
            r.duration.length() == 0,
            r.stopped_early is None ==> accounted(r) == self.lists().flatten().to_multiset(),
    {
        proof {
            if !self.stopped() && !self.stopped_by_cancel {
                self.lemma_unstopped_run_is_complete();
            }
        }
        let mut outcome = self.outcome;
        if self.stopped_by_cancel && outcome.stopped_early.is_none() {
            outcome.stopped_early = Some(StopReason::Cancelled);
        }
        outcome
    }

    proof fn lemma_unstopped_run_is_complete(self)
        requires
            self.wf(),
            self.closed,
            self.active == 0,
            !self.stopped(),
            !self.stopped_by_cancel,
        ensures
            accounted(self.outcome) == self.lists().flatten().to_multiset(),
    {
        assert forall|u: int| 0 <= u < self.lists().len() implies (#[trigger] self.done@[u])
            == self.lists()[u].len() by {
            lemma_no_live_unit(self.phases@, u);
            assert(self.phases@[u] == Phase::Ended);
        }
        lemma_all_reported(self.lists(), self.done@);
    }
}

/// Streams of one entry each are the streamed entries again.
proof fn lemma_singles_flatten(entries: Seq<Entry>)
    ensures
        entries.map_values(|e: Entry| seq![e]).flatten() == entries,
    decreases entries.len(),
{
    let singles = entries.map_values(|e: Entry| seq![e]);
    if entries.len() == 0 {
        assert(singles.flatten() =~= entries);
    } else {
        let front = entries.drop_last();
        let front_singles = front.map_values(|e: Entry| seq![e]);
        lemma_singles_flatten(front);
        assert(singles =~= front_singles.push(seq![entries.last()]));
        front_singles.lemma_flatten_push(seq![entries.last()]);
        assert(singles.flatten() =~= entries);
    }
}

/// The units of a plan hold every file of its workload exactly once.
pub proof fn lemma_plan_holds_every_file_once(
    workload: Workload,
    config: BatchConfig,
    plan: ExecutionPlan,
)
    requires
        workload.small@.len() <= usize::MAX,
        batch::contents(plan.batches@) == batch::packed(
            batch::by_size(workload.small@, config.sort_order),
            config.max_bytes_per_batch,
            config::files_cap(config, workload.small@),
        ),
        plan::streamed(plan.streams@) == workload.large@,
    ensures
        plan_units(plan).flatten().to_multiset() == workload.small@.to_multiset().add(
            workload.large@.to_multiset(),
        ),
{
    let batches = batch::contents(plan.batches@);
    let singles = workload.large@.map_values(|e: Entry| seq![e]);
    batch::lemma_every_entry_is_packed_once(
        workload.small@,
        config.sort_order,
        config.max_bytes_per_batch,
        config::files_cap(config, workload.small@),
    );
    lemma_singles_flatten(workload.large@);
    vstd::seq_lib::lemma_flatten_concat(batches, singles);
    vstd::seq_lib::lemma_multiset_commutative(batches.flatten(), workload.large@);
}

proof fn lemma_units_len_is_flat_len(units: Seq<Seq<Entry>>)
    ensures
        units_len(units) == units.flatten().len(),
    decreases units.len(),
{
    if units.len() == 0 {
        assert(units.flatten() =~= Seq::<Entry>::empty());
    } else {
        let front = units.drop_last();
        lemma_units_len_is_flat_len(front);
        front.lemma_flatten_push(units.last());
        assert(front.push(units.last()) =~= units);
    }
}

/// An operation that was not stopped reports as many entries as it announced at its
/// start.
pub proof fn lemma_announced_entries_are_reported(plan: ExecutionPlan, outcome: OperationOutcome)
    requires
        accounted(outcome) == plan_units(plan).flatten().to_multiset(),
    ensures
        outcome.succeeded@.len() + outcome.skipped@.len() + outcome.failed@.len() == units_len(
            plan_units(plan),
        ),
{
    broadcast use vstd::seq_lib::group_to_multiset_ensures;
    broadcast use vstd::multiset::group_multiset_axioms;

    lemma_units_len_is_flat_len(plan_units(plan));
    let reported = outcome.succeeded@.to_multiset().add(outcome.skipped@.to_multiset());
    let failed = failed_entries(outcome.failed@).to_multiset();
    assert(reported.len() == outcome.succeeded@.len() + outcome.skipped@.len());
    assert(reported.add(failed).len() == reported.len() + failed.len());
}

/// Never are more units with workers than the pool has workers.
pub proof fn lemma_concurrency_is_limited(dispatcher: Dispatcher)
    requires
        dispatcher.wf(),
    ensures
        live_count(dispatcher.phases@) <= dispatcher.limit,
{
}

/// No entry is accounted for more often than the plan holds it, whatever stopped the
/// operation.
pub proof fn lemma_no_entry_twice(dispatcher: Dispatcher, entry: Entry)
    requires
        dispatcher.wf(),
    ensures
        accounted(dispatcher.outcome).count(entry)
            <= dispatcher.lists().flatten().to_multiset().count(entry),
{
    lemma_reported_within(dispatcher.lists(), dispatcher.done@, entry);
}

pub proof fn lemma_reported_within(units: Seq<Seq<Entry>>, done: Seq<usize>, entry: Entry)
    requires
        done.len() == units.len(),
        forall|u: int| 0 <= u < units.len() ==> (#[trigger] done[u]) <= units[u].len(),
    ensures
        reported(units, done).count(entry) <= units.flatten().to_multiset().count(entry),
    decreases units.len(),
{
    broadcast use vstd::seq_lib::group_to_multiset_ensures;

    if units.len() > 0 {
        let front = units.drop_last();
        assert forall|u: int| 0 <= u < front.len() implies (#[trigger] done.drop_last()[u])
            <= front[u].len() by {
            assert(done[u] <= units[u].len());
        }
        lemma_reported_within(front, done.drop_last(), entry);
        assert(done[units.len() - 1] <= units.last().len());
        let list = units.last();
        let head = list.take(done.last() as int);
        let tail = list.skip(done.last() as int);
        assert(list =~= head + tail);
        vstd::seq_lib::lemma_multiset_commutative(head, tail);
        front.lemma_flatten_push(list);
        assert(front.push(list) =~= units);
        vstd::seq_lib::lemma_multiset_commutative(front.flatten(), list);
    }
}

/// A stopped operation stays stopped for the same reason: later failures do not
/// replace it.
pub proof fn lemma_reason_is_kept(
    strategy: ErrorStrategy,
    failed: Seq<(Entry, Error)>,
    later: (Entry, Error),
)
    requires
        outcome::first_reason(strategy, failed) is Some,
    ensures
        outcome::first_reason(strategy, failed.push(later)) == outcome::first_reason(
            strategy,
            failed,
        ),
{
    assert(failed.push(later).drop_last() =~= failed);
}

/// A unit is started only where one is left, a worker is free, and nothing has stopped the
/// operation, neither a failure nor the caller; and it is started then. The pool waits only
/// for workers that are busy, and ends only where nothing is to be started.
pub proof fn lemma_units_start_where_they_may(
    before: Dispatcher,
    after: Dispatcher,
    cancelled: bool,
    r: Admission,
)
    requires
        before.wf(),
        before.admits(after, cancelled, r),
    ensures
        r is Start <==> !before.closed && !before.stopped() && !cancelled && before.next
            < before.units@.len() && before.active < before.limit,
        r is Start ==> r->Start_0 < before.units@.len() && before.phases@[r->Start_0 as int]
            == Phase::Queued && after.phases@[r->Start_0 as int] == Phase::Running && after.active
            == before.active + 1,
        r is Wait ==> before.active == before.limit && before.active > 0 && after == before,
        r is Finish <==> before.closed || before.stopped() || before.next == before.units@.len()
            || cancelled,
        r is Finish <==> after.closed,
        after.stopped_by_cancel && !before.stopped_by_cancel ==> cancelled && !before.stopped()
            && before.next < before.units@.len(),
        cancelled && !before.closed && !before.stopped() && before.next < before.units@.len()
            ==> after.stopped_by_cancel,
{
}

/// A worker takes up the entries of its unit in order and without a gap, and none behind a
/// failure that stopped it; it is free once no entry is left.
pub proof fn lemma_worker_takes_up_the_next_entry(
    before: Dispatcher,
    after: Dispatcher,
    unit: usize,
    r: Option<(Entry, Progress)>,
)
    requires
        before.wf(),
        unit < before.units@.len(),
        before.hands_out(after, unit, r),
    ensures
        r is Some <==> before.phases@[unit as int] == Phase::Running && before.done@[unit as int]
            < before.units@[unit as int]@.len(),
        r matches Some((entry, event)) ==> entry
            == before.units@[unit as int]@[before.done@[unit as int] as int] && event == (
        Progress::EntryStarted { entry }) && after == before,
        r is None ==> after.phases@[unit as int] == Phase::Ended && after.active == before.active
            - 1,
{
}

/// An entry is reported as what became of it and as nothing else: written ones succeed,
/// skipped ones are skipped, and failed ones fail with their own error; the event tells the
/// same. Only a failure can stop the operation, and the first one that does gives the reason.
pub proof fn lemma_entry_is_reported_as_what_it_came_to(
    before: Dispatcher,
    after: Dispatcher,
    unit: usize,
    result: Result<EntryOutcome, Error>,
    r: Progress,
)
    requires
        before.wf(),
        unit < before.units@.len(),
        before.takes_in(after, unit, result, r),
    ensures
        ({
            let entry = before.units@[unit as int]@[before.done@[unit as int] as int];
            &&& after.outcome.succeeded@ == if result == Ok::<EntryOutcome, Error>(
                EntryOutcome::Written,
            ) {
                before.outcome.succeeded@.push(entry)
            } else {
                before.outcome.succeeded@
            }
            &&& after.outcome.skipped@ == if result == Ok::<EntryOutcome, Error>(
                EntryOutcome::Skipped,
            ) {
                before.outcome.skipped@.push(entry)
            } else {
                before.outcome.skipped@
            }
            &&& after.outcome.failed@ == match result {
                Err(error) => before.outcome.failed@.push((entry, error)),
                Ok(_) => before.outcome.failed@,
            }
            &&& r == if result is Err {
                Progress::EntryFailed { entry }
            } else {
                Progress::EntryCompleted { entry }
            }
        }),
        before.stopped() ==> after.outcome.stopped_early == before.outcome.stopped_early,
        after.stopped() && !before.stopped() ==> result is Err,
        result is Ok ==> after.outcome.stopped_early == before.outcome.stopped_early
            && after.phases == before.phases,
        result is Err && (before.strategy != ErrorStrategy::ContinueAndCollect || error::fatal(
            result->Err_0,
        )) ==> after.stopped() && after.phases@[unit as int] != Phase::Running,
        result is Err && before.strategy == ErrorStrategy::ContinueAndCollect && !error::fatal(
            result->Err_0,
        ) ==> after.stopped() == before.stopped() && after.phases@ == before.phases@,
{
}

/// What succeeded is either reported or taken back, never both and never neither; it is taken
/// back exactly where the caller asked for that and the operation ended early, and then the
/// last entry first.
pub proof fn lemma_success_is_reported_or_taken_back(
    done: Seq<Entry>,
    strategy: ErrorStrategy,
    outcome: OperationOutcome,
    undone: Seq<Entry>,
)
    requires
        settles(done, strategy, outcome, undone),
    ensures
        strategy != ErrorStrategy::Undo || outcome.stopped_early is None ==> outcome.succeeded@
            == done && undone.len() == 0,
        strategy == ErrorStrategy::Undo && outcome.stopped_early is Some ==> {
            &&& outcome.succeeded@.len() == 0
            &&& undone.len() == done.len()
            &&& forall|i: int|
                0 <= i < done.len() ==> #[trigger] undone[i] == done[done.len() - 1 - i]
        },
        outcome.succeeded@.len() + undone.len() == done.len(),
{
}

/// An operation that was neither cancelled nor stopped by a failure has no reason to have
/// ended early; a failure that stopped it comes before a cancellation.
pub proof fn lemma_reason_is_a_failure_or_the_cancellation(
    strategy: ErrorStrategy,
    failed: Seq<(Entry, Error)>,
    stopped_by_cancel: bool,
)
    ensures
        final_reason(strategy, failed, stopped_by_cancel) is None <==> !stopped_by_cancel
            && outcome::first_reason(strategy, failed) is None,
        final_reason(strategy, failed, stopped_by_cancel) == Some(StopReason::Cancelled) ==> (
        stopped_by_cancel && outcome::first_reason(strategy, failed) is None) || outcome::first_reason(
            strategy,
            failed,
        ) == Some(StopReason::Cancelled),
        stopped_by_cancel && outcome::first_reason(strategy, failed) is None ==> final_reason(
            strategy,
            failed,
            stopped_by_cancel,
        ) == Some(StopReason::Cancelled),
        outcome::first_reason(strategy, failed) is Some ==> final_reason(
            strategy,
            failed,
            stopped_by_cancel,
        ) == outcome::first_reason(strategy, failed),
{
}

proof fn lemma_flat_sum(units: Seq<Seq<Entry>>, more: Seq<Entry>)
    ensures
        profiler::sizes_sum(units.push(more).flatten()) == profiler::sizes_sum(units.flatten())
            + profiler::sizes_sum(more),
{
    units.lemma_flatten_push(more);
    profiler::lemma_sizes_add_up(units.flatten(), more);
}

proof fn lemma_batch_bytes_are_sizes(batches: Seq<batch::Batch>)
    requires
        forall|i: int| 0 <= i < batches.len() ==> (#[trigger] batches[i]).wf(),
    ensures
        batch_bytes(batches) == profiler::sizes_sum(batch::contents(batches).flatten()),
    decreases batches.len(),
{
    let lists = batch::contents(batches);
    if batches.len() == 0 {
        assert(lists =~= Seq::<Seq<Entry>>::empty());
        assert(lists.flatten() =~= Seq::<Entry>::empty());
    } else {
        let front = batches.drop_last();
        assert forall|i: int| 0 <= i < front.len() implies (#[trigger] front[i]).wf() by {
            assert(front[i] == batches[i]);
        }
        lemma_batch_bytes_are_sizes(front);
        lemma_flat_sum(batch::contents(front), batches.last().entries@);
        assert(batch::contents(front).push(batches.last().entries@) =~= lists);
        assert(batches[batches.len() - 1].wf());
    }
}

/// The bytes that are announced are the sizes of all files of the plan together.
pub proof fn lemma_announced_bytes_are_the_sizes(plan: ExecutionPlan)
    requires
        forall|i: int| 0 <= i < plan.batches@.len() ==> (#[trigger] plan.batches@[i]).wf(),
    ensures
        plan_bytes(plan) == profiler::sizes_sum(plan_units(plan).flatten()),
{
    let lists = batch::contents(plan.batches@);
    let streamed = plan::streamed(plan.streams@);
    let singles = streamed.map_values(|e: Entry| seq![e]);
    lemma_batch_bytes_are_sizes(plan.batches@);
    lemma_singles_flatten(streamed);
    vstd::seq_lib::lemma_flatten_concat(lists, singles);
    profiler::lemma_sizes_add_up(lists.flatten(), singles.flatten());
}

/// No step of a run changes its units, how many of them run at a time, or its strategy.
pub proof fn lemma_plan_stays(before: Dispatcher, after: Dispatcher)
    requires
        after.same_plan(before),
    ensures
        after.units == before.units,
        after.lists() == before.lists(),
        after.limit == before.limit,
        after.strategy == before.strategy,
{
}

} // verus!
