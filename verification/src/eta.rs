use vstd::hash_map::StringHashMap;
use vstd::prelude::*;

use crate::paths;
use crate::profiler::Entry;
use crate::progress::Progress;

verus! {

/// What the cost of a piece of work goes by: the number of directories, the number of
/// files, or the number of bytes.
#[derive(Debug, Clone, Copy, PartialEq, Eq, Structural)]
pub enum Regime {
    Directory,
    SmallFile,
    LargeFile,
}

/// What one event adds to the observed rates: the work that it reports, and the rates
/// that the time since the event before it is charged to.
#[derive(Debug, Clone, Copy, PartialEq, Eq, Structural)]
pub struct Charge {
    pub directories: u64,
    pub small_files: u64,
    pub large_bytes: u64,
    /// Bytes of entries of either kind.
    pub all_bytes: u64,
    pub time_for_directories: bool,
    pub time_for_small_files: bool,
    pub time_for_large_files: bool,
    pub time_for_all_bytes: bool,
}

/// Which rates have been measured.
#[derive(Debug, Clone, Copy, PartialEq, Eq, Structural)]
pub struct KnownRates {
    pub directories: bool,
    pub small_files: bool,
    pub large_bytes: bool,
    pub all_bytes: bool,
}

/// The bookkeeping behind an estimate of the time that an operation still takes: how
/// much work of each kind is left, and what is in flight.
///
/// Small files cost by their number, large ones by their bytes, and directories come
/// first and by their number; one rate in bytes per second would describe none of them.
/// Time is charged to every kind of work that was in flight while it passed.
pub struct EtaEstimator {
    pub small_file_threshold: u64,
    pub directories_remaining: usize,
    pub small_files_remaining: usize,
    pub large_bytes_remaining: u64,
    pub small_in_flight: usize,
    pub large_in_flight: usize,
    pub directories_in_flight: bool,
    /// The bytes already counted of each entry in flight, by the shortest text of its
    /// path.
    pub credited_bytes: StringHashMap<u64>,
    /// A plan was announced whose work has not started.
    pub awaiting_planned_start: bool,
}

/// The state of an estimator.
#[verifier::ext_equal]
pub struct EtaModel {
    pub small_file_threshold: u64,
    pub directories_remaining: usize,
    pub small_files_remaining: usize,
    pub large_bytes_remaining: u64,
    pub small_in_flight: usize,
    pub large_in_flight: usize,
    pub directories_in_flight: bool,
    pub credited: Map<Seq<char>, u64>,
    pub awaiting_planned_start: bool,
}

impl View for EtaEstimator {
    type V = EtaModel;

    open spec fn view(&self) -> EtaModel {
        EtaModel {
            small_file_threshold: self.small_file_threshold,
            directories_remaining: self.directories_remaining,
            small_files_remaining: self.small_files_remaining,
            large_bytes_remaining: self.large_bytes_remaining,
            small_in_flight: self.small_in_flight,
            large_in_flight: self.large_in_flight,
            directories_in_flight: self.directories_in_flight,
            credited: self.credited_bytes@,
            awaiting_planned_start: self.awaiting_planned_start,
        }
    }
}

/// `a - b`, and 0 where that is less.
pub open spec fn less(a: int, b: int) -> int {
    if a > b {
        a - b
    } else {
        0
    }
}

/// One more, as far as it can be counted.
pub open spec fn one_more(n: usize) -> usize {
    if n == usize::MAX {
        n
    } else {
        (n + 1) as usize
    }
}

impl EtaModel {
    pub open spec fn regime_of(self, size: u64) -> Regime {
        if size <= self.small_file_threshold {
            Regime::SmallFile
        } else {
            Regime::LargeFile
        }
    }

    /// The bytes of `entry` that have been counted already.
    pub open spec fn credit(self, entry: Entry) -> u64 {
        let key = paths::render(entry.path@);
        if self.credited.contains_key(key) {
            self.credited[key]
        } else {
            0
        }
    }

    /// The bytes of `entry` that have not been counted yet.
    pub open spec fn outstanding(self, entry: Entry) -> u64 {
        less(entry.size as int, self.credit(entry) as int) as u64
    }

    /// The state behind the end of an entry. How it ended makes no difference.
    pub open spec fn ended(self, entry: Entry) -> EtaModel {
        if self.regime_of(entry.size) == Regime::LargeFile {
            EtaModel {
                credited: self.credited.remove(paths::render(entry.path@)),
                large_bytes_remaining: less(
                    self.large_bytes_remaining as int,
                    self.outstanding(entry) as int,
                ) as u64,
                large_in_flight: less(self.large_in_flight as int, 1) as usize,
                ..self
            }
        } else {
            EtaModel {
                small_files_remaining: less(self.small_files_remaining as int, 1) as usize,
                small_in_flight: less(self.small_in_flight as int, 1) as usize,
                ..self
            }
        }
    }

    /// The bytes of a sample that have not been counted yet.
    pub open spec fn sampled(self, entry: Entry, bytes_copied: u64) -> u64 {
        less(bytes_copied as int, self.credit(entry) as int) as u64
    }

    /// The state behind an event.
    pub open spec fn observed(self, progress: Progress) -> EtaModel {
        match progress {
            Progress::Planned { directories, small_files, large_bytes, small_file_threshold, .. } => EtaModel {
                small_file_threshold,
                directories_remaining: directories,
                small_files_remaining: small_files,
                large_bytes_remaining: large_bytes,
                awaiting_planned_start: true,
                ..self
            },
            Progress::DirectoriesStarted { total } => EtaModel {
                directories_remaining: total,
                directories_in_flight: total > 0,
                ..self
            },
            Progress::DirectoryCompleted { .. } => self.directory_ended(),
            Progress::DirectoryFailed { .. } => self.directory_ended(),
            Progress::Started { entries_total, .. } => if self.awaiting_planned_start {
                EtaModel { directories_in_flight: false, awaiting_planned_start: false, ..self }
            } else {
                EtaModel {
                    directories_in_flight: false,
                    small_files_remaining: entries_total,
                    large_bytes_remaining: 0,
                    small_file_threshold: u64::MAX,
                    ..self
                }
            },
            Progress::EntryStarted { entry } => if self.regime_of(entry.size) == Regime::LargeFile {
                EtaModel { large_in_flight: one_more(self.large_in_flight), ..self }
            } else {
                EtaModel { small_in_flight: one_more(self.small_in_flight), ..self }
            },
            Progress::EntryProgress { entry, bytes_copied } => EtaModel {
                credited: self.credited.insert(
                    paths::render(entry.path@),
                    if bytes_copied > self.credit(entry) {
                        bytes_copied
                    } else {
                        self.credit(entry)
                    },
                ),
                large_bytes_remaining: less(
                    self.large_bytes_remaining as int,
                    self.sampled(entry, bytes_copied) as int,
                ) as u64,
                ..self
            },
            Progress::EntryCompleted { entry } => self.ended(entry),
            Progress::EntryFailed { entry } => self.ended(entry),
        }
    }

    /// The state behind the end of a directory.
    pub open spec fn directory_ended(self) -> EtaModel {
        let left = less(self.directories_remaining as int, 1) as usize;
        EtaModel {
            directories_remaining: left,
            directories_in_flight: self.directories_in_flight && left > 0,
            ..self
        }
    }

    /// The time behind an event goes to all that was in flight before it.
    pub open spec fn idle_charge(self) -> Charge {
        Charge {
            directories: 0,
            small_files: 0,
            large_bytes: 0,
            all_bytes: 0,
            time_for_directories: self.directories_in_flight,
            time_for_small_files: self.small_in_flight > 0,
            time_for_large_files: self.large_in_flight > 0,
            time_for_all_bytes: self.small_in_flight > 0 || self.large_in_flight > 0,
        }
    }

    /// The work of an entry that ends.
    pub open spec fn ended_charge(self, entry: Entry) -> Charge {
        if self.regime_of(entry.size) == Regime::LargeFile {
            Charge {
                large_bytes: self.outstanding(entry),
                all_bytes: self.outstanding(entry),
                ..self.idle_charge()
            }
        } else {
            Charge { small_files: 1, all_bytes: entry.size, ..self.idle_charge() }
        }
    }

    /// What an event adds to the rates.
    pub open spec fn charge(self, progress: Progress) -> Charge {
        match progress {
            Progress::DirectoryCompleted { .. } => Charge { directories: 1, ..self.idle_charge() },
            Progress::DirectoryFailed { .. } => Charge { directories: 1, ..self.idle_charge() },
            Progress::EntryProgress { entry, bytes_copied } => Charge {
                large_bytes: self.sampled(entry, bytes_copied),
                all_bytes: self.sampled(entry, bytes_copied),
                ..self.idle_charge()
            },
            Progress::EntryCompleted { entry } => self.ended_charge(entry),
            Progress::EntryFailed { entry } => self.ended_charge(entry),
            _ => self.idle_charge(),
        }
    }

    /// Whether the time that is left can be estimated: every kind of work that is left
    /// has a measured rate. Large files fall back on the rate of all bytes.
    pub open spec fn estimable(self, known: KnownRates) -> bool {
        &&& self.directories_remaining == 0 || known.directories
        &&& self.small_files_remaining == 0 || known.small_files
        &&& self.large_bytes_remaining == 0 || known.large_bytes || known.all_bytes
    }
}

impl EtaEstimator {
    /// An estimator that has seen nothing.
    pub fn new() -> (r: EtaEstimator)
        ensures
            r@ == (EtaModel {
                small_file_threshold: 0,
                directories_remaining: 0,
                small_files_remaining: 0,
                large_bytes_remaining: 0,
                small_in_flight: 0,
                large_in_flight: 0,
                directories_in_flight: false,
                credited: Map::empty(),
                awaiting_planned_start: false,
            }),
    {
        EtaEstimator {
            small_file_threshold: 0,
            directories_remaining: 0,
            small_files_remaining: 0,
            large_bytes_remaining: 0,
            small_in_flight: 0,
            large_in_flight: 0,
            directories_in_flight: false,
            credited_bytes: StringHashMap::new(),
            awaiting_planned_start: false,
        }
    }

    /// Which kind of work a file of `size` bytes is.
    pub fn regime_for(&self, size: u64) -> (r: Regime)
        ensures
            r == self@.regime_of(size),
    {
        if size <= self.small_file_threshold {
            Regime::SmallFile
        } else {
            Regime::LargeFile
        }
    }

    /// The charge of the time that has just passed.
    fn in_flight_regimes(&self) -> (r: Charge)
        ensures
            r == self@.idle_charge(),
    {
        Charge {
            directories: 0,
            small_files: 0,
            large_bytes: 0,
            all_bytes: 0,
            time_for_directories: self.directories_in_flight,
            time_for_small_files: self.small_in_flight > 0,
            time_for_large_files: self.large_in_flight > 0,
            time_for_all_bytes: self.small_in_flight > 0 || self.large_in_flight > 0,
        }
    }

    fn credit_of(&self, key: &String) -> (r: u64)
        ensures
            r == if self.credited_bytes@.contains_key(key@) {
                self.credited_bytes@[key@]
            } else {
                0
            },
    {
        match self.credited_bytes.get(key.as_str()) {
            Some(bytes) => *bytes,
            None => 0,
        }
    }

    fn end_directory(&mut self)
        ensures
            final(self)@ == old(self)@.directory_ended(),
    {
        self.directories_remaining = self.directories_remaining.saturating_sub(1);
        if self.directories_remaining == 0 {
            self.directories_in_flight = false;
        }
    }

    fn end_entry(&mut self, entry: &Entry, charge: Charge) -> (r: Charge)
        requires
            charge == old(self)@.idle_charge(),
        ensures
            final(self)@ == old(self)@.ended(*entry),
            r == old(self)@.ended_charge(*entry),
    {
        match self.regime_for(entry.size) {
            Regime::LargeFile => {
                let key = entry.path.canonical();
                let outstanding: u64 = entry.size.saturating_sub(self.credit_of(&key));
                self.credited_bytes.remove(key.as_str());
                self.large_bytes_remaining = self.large_bytes_remaining.saturating_sub(outstanding);
                self.large_in_flight = self.large_in_flight.saturating_sub(1);
                Charge { large_bytes: outstanding, all_bytes: outstanding, ..charge }
            },
            _ => {
                self.small_files_remaining = self.small_files_remaining.saturating_sub(1);
                self.small_in_flight = self.small_in_flight.saturating_sub(1);
                Charge { small_files: 1, all_bytes: entry.size, ..charge }
            },
        }
    }

    /// Takes one event in, and gives what it adds to the rates. Events that come out of
    /// order, or do not come, make the estimate worse but nothing else.
    pub fn observe(&mut self, progress: &Progress) -> (r: Charge)
        ensures
            final(self)@ == old(self)@.observed(*progress),
            r == old(self)@.charge(*progress),
    {
        let charge = self.in_flight_regimes();
        match progress {
            Progress::Planned { directories, small_files, large_bytes, small_file_threshold, .. } => {
                self.small_file_threshold = *small_file_threshold;
                self.directories_remaining = *directories;
                self.small_files_remaining = *small_files;
                self.large_bytes_remaining = *large_bytes;
                self.awaiting_planned_start = true;
                charge
            },
            Progress::DirectoriesStarted { total } => {
                self.directories_remaining = *total;
                self.directories_in_flight = *total > 0;
                charge
            },
            Progress::DirectoryCompleted { .. } => {
                self.end_directory();
                Charge { directories: 1, ..charge }
            },
            Progress::DirectoryFailed { .. } => {
                self.end_directory();
                Charge { directories: 1, ..charge }
            },
            Progress::Started { entries_total, .. } => {
                self.directories_in_flight = false;
                if self.awaiting_planned_start {
                    self.awaiting_planned_start = false;
                } else {
                    self.small_files_remaining = *entries_total;
                    self.large_bytes_remaining = 0;
                    self.small_file_threshold = u64::MAX;
                }
                charge
            },
            Progress::EntryStarted { entry } => {
                match self.regime_for(entry.size) {
                    Regime::LargeFile => {
                        self.large_in_flight = self.large_in_flight.saturating_add(1);
                    },
                    _ => {
                        self.small_in_flight = self.small_in_flight.saturating_add(1);
                    },
                }
                charge
            },
            Progress::EntryProgress { entry, bytes_copied } => {
                let key = entry.path.canonical();
                let credited: u64 = self.credit_of(&key);
                let delta: u64 = bytes_copied.saturating_sub(credited);
                if delta > 0 {
                    self.credited_bytes.insert(key, *bytes_copied);
                    self.large_bytes_remaining = self.large_bytes_remaining.saturating_sub(delta);
                } else {
                    self.credited_bytes.insert(key, credited);
                }
                Charge { large_bytes: delta, all_bytes: delta, ..charge }
            },
            Progress::EntryCompleted { entry } => self.end_entry(entry, charge),
            Progress::EntryFailed { entry } => self.end_entry(entry, charge),
        }
    }

    /// Whether the time that is left can be estimated from the rates that have been
    /// measured.
    pub fn can_estimate(&self, known: KnownRates) -> (r: bool)
        ensures
            r == self@.estimable(known),
    {
        (self.directories_remaining == 0 || known.directories) && (self.small_files_remaining == 0
            || known.small_files) && (self.large_bytes_remaining == 0 || known.large_bytes
            || known.all_bytes)
    }
}

/// The large bytes that the samples of an entry in flight and then its end add up to.
pub open spec fn counted(model: EtaModel, entry: Entry, samples: Seq<u64>) -> int
    decreases samples.len(),
{
    if samples.len() == 0 {
        model.charge(Progress::EntryCompleted { entry }).large_bytes as int
    } else {
        let sample = Progress::EntryProgress { entry, bytes_copied: samples[0] };
        model.charge(sample).large_bytes + counted(
            model.observed(sample),
            entry,
            samples.drop_first(),
        )
    }
}

/// The bytes of a large file are counted once: what its samples reported is not counted
/// again when it ends. Samples are cumulative and never exceed the size.
pub proof fn lemma_sampled_bytes_count_once(model: EtaModel, entry: Entry, samples: Seq<u64>)
    requires
        model.regime_of(entry.size) == Regime::LargeFile,
        model.credit(entry) <= entry.size,
        forall|i: int| 0 <= i < samples.len() ==> (#[trigger] samples[i]) <= entry.size,
    ensures
        counted(model, entry, samples) == entry.size - model.credit(entry),
    decreases samples.len(),
{
    if samples.len() > 0 {
        let sample = Progress::EntryProgress { entry, bytes_copied: samples[0] };
        let rest = samples.drop_first();
        assert forall|i: int| 0 <= i < rest.len() implies (#[trigger] rest[i]) <= entry.size by {
            assert(rest[i] == samples[i + 1]);
        }
        lemma_sampled_bytes_count_once(model.observed(sample), entry, rest);
    }
}

/// A failed entry counts as progress exactly as a completed one does.
pub proof fn lemma_failures_count_as_progress(model: EtaModel, entry: Entry)
    ensures
        model.observed(Progress::EntryFailed { entry }) == model.observed(
            Progress::EntryCompleted { entry },
        ),
        model.charge(Progress::EntryFailed { entry }) == model.charge(
            Progress::EntryCompleted { entry },
        ),
{
}

/// A phase that was not planned is costed by its number of entries, whatever their
/// sizes.
pub proof fn lemma_unplanned_phase_costs_by_entry(
    model: EtaModel,
    bytes_total: Option<u64>,
    entries_total: usize,
    size: u64,
)
    requires
        !model.awaiting_planned_start,
    ensures
        ({
            let started = model.observed(Progress::Started { bytes_total, entries_total });
            &&& started.small_files_remaining == entries_total
            &&& started.large_bytes_remaining == 0
            &&& started.regime_of(size) == Regime::SmallFile
        }),
{
}

/// Once the entries start, no time is charged to directories any more.
pub proof fn lemma_directories_end_before_entries(
    model: EtaModel,
    bytes_total: Option<u64>,
    entries_total: usize,
    next: Progress,
)
    ensures
        !model.observed(Progress::Started { bytes_total, entries_total }).charge(
            next,
        ).time_for_directories,
{
}

/// Where no work is left, an estimate needs no rate at all.
pub proof fn lemma_nothing_left_is_estimable(model: EtaModel, known: KnownRates)
    requires
        model.directories_remaining == 0,
        model.small_files_remaining == 0,
        model.large_bytes_remaining == 0,
    ensures
        model.estimable(known),
{
}

/// A file is small up to the threshold and large above it, and never anything else.
pub proof fn lemma_threshold_parts_small_from_large(model: EtaModel, size: u64)
    ensures
        model.regime_of(size) == Regime::SmallFile <==> size <= model.small_file_threshold,
        model.regime_of(size) == Regime::LargeFile <==> size > model.small_file_threshold,
{
}

/// Once an entry has started and ended, as much is in flight as before, and in between one
/// more of its own kind is.
pub proof fn lemma_start_and_end_cancel_out(model: EtaModel, entry: Entry)
    requires
        model.small_in_flight < usize::MAX,
        model.large_in_flight < usize::MAX,
    ensures
        ({
            let started = model.observed(Progress::EntryStarted { entry });
            let ended = started.observed(Progress::EntryCompleted { entry });
            &&& started.small_in_flight + started.large_in_flight == model.small_in_flight
                + model.large_in_flight + 1
            &&& started.small_in_flight > model.small_in_flight <==> entry.size
                <= model.small_file_threshold
            &&& ended.small_in_flight == model.small_in_flight
            &&& ended.large_in_flight == model.large_in_flight
            &&& started.small_files_remaining == model.small_files_remaining
            &&& started.large_bytes_remaining == model.large_bytes_remaining
        }),
{
}

/// The end of an entry takes off what is left exactly what it adds to the rates, and what is
/// left of the other kinds stays. What was sampled of it is forgotten.
pub proof fn lemma_end_takes_off_what_it_reports(model: EtaModel, entry: Entry)
    requires
        model.small_files_remaining > 0,
        model.large_bytes_remaining >= model.outstanding(entry),
        entry.size <= model.small_file_threshold ==> model.credit(entry) == 0,
    ensures
        ({
            let event = Progress::EntryCompleted { entry };
            let after = model.observed(event);
            let charge = model.charge(event);
            &&& after.small_files_remaining + charge.small_files == model.small_files_remaining
            &&& after.large_bytes_remaining + charge.large_bytes == model.large_bytes_remaining
            &&& after.directories_remaining == model.directories_remaining && charge.directories
                == 0
            &&& charge.small_files == 1 <==> entry.size <= model.small_file_threshold
            &&& charge.all_bytes == less(entry.size as int, model.credit(entry) as int)
            &&& after.credit(entry) == 0
        }),
{
}

/// The time behind any event goes to a kind of work if and only if some of it was in flight.
pub proof fn lemma_time_goes_to_what_is_in_flight(model: EtaModel, event: Progress)
    ensures
        ({
            let charge = model.charge(event);
            &&& charge.time_for_directories <==> model.directories_in_flight
            &&& charge.time_for_small_files <==> model.small_in_flight > 0
            &&& charge.time_for_large_files <==> model.large_in_flight > 0
            &&& charge.time_for_all_bytes <==> charge.time_for_small_files
                || charge.time_for_large_files
        }),
{
}

/// Without a rate for a kind of work that is left there is no estimate, and with one for each
/// there is; large files do with the rate of all bytes. More rates never take an estimate
/// away.
pub proof fn lemma_estimate_needs_every_rate(model: EtaModel, known: KnownRates, more: KnownRates)
    ensures
        model.directories_remaining > 0 && !known.directories ==> !model.estimable(known),
        model.small_files_remaining > 0 && !known.small_files ==> !model.estimable(known),
        model.large_bytes_remaining > 0 && !known.large_bytes && !known.all_bytes
            ==> !model.estimable(known),
        known.directories && known.small_files && (known.large_bytes || known.all_bytes)
            ==> model.estimable(known),
        model.estimable(known) && (known.directories ==> more.directories) && (known.small_files
            ==> more.small_files) && (known.large_bytes ==> more.large_bytes) && (known.all_bytes
            ==> more.all_bytes) ==> model.estimable(more),
{
}

/// A plan says what is left, and the start of its work changes nothing of that.
pub proof fn lemma_plan_is_taken_over(
    model: EtaModel,
    plan: Progress,
    bytes_total: Option<u64>,
    entries_total: usize,
)
    requires
        plan is Planned,
    ensures
        ({
            let planned = model.observed(plan);
            let started = planned.observed(Progress::Started { bytes_total, entries_total });
            &&& planned.directories_remaining == plan->directories
            &&& planned.small_files_remaining == plan->small_files
            &&& planned.large_bytes_remaining == plan->large_bytes
            &&& planned.small_file_threshold == plan->small_file_threshold
            &&& started.directories_remaining == planned.directories_remaining
            &&& started.small_files_remaining == planned.small_files_remaining
            &&& started.large_bytes_remaining == planned.large_bytes_remaining
            &&& started.small_file_threshold == planned.small_file_threshold
            &&& !started.directories_in_flight
            &&& !started.awaiting_planned_start
        }),
{
}

/// A sample counts what it reports beyond the earlier ones, one that reports no more counts
/// nothing, and none touches what was counted of another path.
pub proof fn lemma_samples_count_forward_only(
    model: EtaModel,
    entry: Entry,
    bytes_copied: u64,
    other: Entry,
)
    ensures
        ({
            let sample = Progress::EntryProgress { entry, bytes_copied };
            let after = model.observed(sample);
            let charge = model.charge(sample);
            &&& bytes_copied <= model.credit(entry) ==> charge.large_bytes == 0
                && after.large_bytes_remaining == model.large_bytes_remaining
                && after.credit(entry) == model.credit(entry)
            &&& bytes_copied > model.credit(entry) ==> charge.large_bytes == bytes_copied
                - model.credit(entry) && after.credit(entry) == bytes_copied
            &&& charge.all_bytes == charge.large_bytes
            &&& charge.small_files == 0 && charge.directories == 0
            &&& paths::render(other.path@) != paths::render(entry.path@) ==> after.credit(other)
                == model.credit(other)
            &&& after.small_in_flight == model.small_in_flight
            &&& after.large_in_flight == model.large_in_flight
        }),
{
}

/// Directories are in flight from their start until the last of them has ended, and each that
/// ends, however it does, is one less to come.
pub proof fn lemma_directories_are_counted_down(
    model: EtaModel,
    total: usize,
    completed: Progress,
    failed: Progress,
)
    requires
        completed is DirectoryCompleted,
        failed is DirectoryFailed,
    ensures
        ({
            let started = model.observed(Progress::DirectoriesStarted { total });
            let after = started.observed(completed);
            &&& started.directories_remaining == total
            &&& started.directories_in_flight <==> total > 0
            &&& total > 0 ==> after.directories_remaining == total - 1
            &&& after.directories_in_flight <==> total > 1
            &&& started.observed(failed) == after
            &&& started.charge(completed).directories == 1
            &&& started.charge(failed) == started.charge(completed)
            &&& after.small_files_remaining == model.small_files_remaining
            &&& after.large_bytes_remaining == model.large_bytes_remaining
        }),
{
}

} // verus!
