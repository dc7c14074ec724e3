use vstd::prelude::*;

use crate::ordering;
use crate::profiler::Entry;

verus! {

/// Whether the largest or the smallest files are packed first.
#[derive(Debug, Clone, Copy, PartialEq, Eq, Structural)]
pub enum SortOrder {
    Ascending,
    Descending,
}

/// What a failure of one entry does to the rest of the operation.
#[derive(Debug, Clone, Copy, PartialEq, Eq, Structural)]
pub enum ErrorStrategy {
    /// Go on, and report the failures at the end.
    ContinueAndCollect,
    /// Start nothing more.
    AbortOnError,
    /// Start nothing more, and take back what has been done.
    Undo,
}

impl Default for ErrorStrategy {
    fn default() -> (r: Self)
        ensures
            r == ErrorStrategy::ContinueAndCollect,
    {
        ErrorStrategy::ContinueAndCollect
    }
}

pub const DEFAULT_MAX_BYTES_PER_BATCH: u64 = 8 * 1024 * 1024;

/// How small files are packed into batches.
#[derive(Debug)]
pub struct BatchConfig {
    pub max_bytes_per_batch: u64,
    pub max_files_per_batch: Option<usize>,
    pub sort_order: SortOrder,
    pub error_strategy: ErrorStrategy,
}

/// The configuration that applies where the caller sets nothing.
pub open spec fn default_config() -> BatchConfig {
    BatchConfig {
        max_bytes_per_batch: DEFAULT_MAX_BYTES_PER_BATCH,
        max_files_per_batch: None,
        sort_order: SortOrder::Descending,
        error_strategy: ErrorStrategy::ContinueAndCollect,
    }
}

impl Default for BatchConfig {
    fn default() -> (r: Self)
        ensures
            r == default_config(),
    {
        BatchConfig {
            max_bytes_per_batch: DEFAULT_MAX_BYTES_PER_BATCH,
            max_files_per_batch: None,
            sort_order: SortOrder::Descending,
            error_strategy: ErrorStrategy::default(),
        }
    }
}

impl Clone for BatchConfig {
    fn clone(&self) -> (r: Self)
        ensures
            r == *self,
    {
        BatchConfig {
            max_bytes_per_batch: self.max_bytes_per_batch,
            max_files_per_batch: self.max_files_per_batch,
            sort_order: self.sort_order,
            error_strategy: self.error_strategy,
        }
    }
}

/// The cap on the number of files where no median can be derived: it bounds a
/// batch by count though the byte budget alone would not.
pub const FALLBACK_MAX_FILES_PER_BATCH: usize = 1000;

/// The sizes of `entries`, in order.
pub open spec fn sizes_of(entries: Seq<Entry>) -> Seq<u64> {
    entries.map_values(|e: Entry| e.size)
}

/// The middle of the ordered sizes; for an even number of them the mean of the two
/// in the middle, rounded down, and 0 where there are none.
pub open spec fn median(sizes: Seq<u64>) -> int {
    let order = ordering::order_of(sizes, false);
    let middle = sizes.len() as int / 2;
    if sizes.len() == 0 {
        0
    } else if sizes.len() % 2 == 0 {
        (sizes[order[middle - 1] as int] + sizes[order[middle] as int]) / 2
    } else {
        sizes[order[middle] as int] as int
    }
}

/// How many files a batch of `entries` may hold.
pub open spec fn files_cap(config: BatchConfig, entries: Seq<Entry>) -> usize {
    match config.max_files_per_batch {
        Some(n) => n,
        None => {
            let middle = median(sizes_of(entries));
            if middle == 0 {
                FALLBACK_MAX_FILES_PER_BATCH
            } else {
                let derived = (config.max_bytes_per_batch as int / middle) as usize;
                if derived < 1 {
                    1
                } else {
                    derived
                }
            }
        },
    }
}

/// The sizes of `entries`, in order.
pub fn entry_sizes(entries: &Vec<Entry>) -> (r: Vec<u64>)
    ensures
        r@ == sizes_of(entries@),
{
    let mut sizes: Vec<u64> = Vec::with_capacity(entries.len());
    let mut i: usize = 0;
    while i < entries.len()
        invariant
            i <= entries@.len(),
            sizes@ == sizes_of(entries@.take(i as int)),
        decreases entries@.len() - i,
    {
        sizes.push(entries[i].size);
        assert(sizes@ =~= sizes_of(entries@.take(i + 1)));
        i = i + 1;
    }
    assert(entries@.take(entries@.len() as int) =~= entries@);
    sizes
}

/// The median size of `entries`, and 0 where there are none.
pub fn median_size(entries: &Vec<Entry>) -> (r: u64)
    ensures
        r == median(sizes_of(entries@)),
{
    if entries.is_empty() {
        return 0;
    }
    let sizes = entry_sizes(entries);
    let order = ordering::stable_order(&sizes, false);
    proof {
        ordering::lemma_order_is_unique(sizes@, false, order@);
    }
    let middle: usize = sizes.len() / 2;
    if sizes.len() % 2 == 0 {
        let low: u64 = sizes[order[middle - 1]];
        let high: u64 = sizes[order[middle]];
        assert(ordering::precedes(sizes@, false, order@[middle - 1] as int, order@[middle as int] as int));
        low + (high - low) / 2
    } else {
        sizes[order[middle]]
    }
}

impl BatchConfig {
    /// The cap on the number of files in a batch: the one that is set, or else as many
    /// files of the median size as the byte budget holds, and at least one.
    pub fn resolved_max_files_per_batch(&self, entries: &Vec<Entry>) -> (r: usize)
        ensures
            r == files_cap(*self, entries@),
    {
        if let Some(n) = self.max_files_per_batch {
            return n;
        }
        let median = median_size(entries);
        if median == 0 {
            return FALLBACK_MAX_FILES_PER_BATCH;
        }
        let derived: usize = (self.max_bytes_per_batch / median) as usize;
        if derived < 1 {
            1
        } else {
            derived
        }
    }
}

/// The median lies in the middle: no size in the first half of the order is above it, and
/// none in the second half below.
pub proof fn lemma_median_lies_in_the_middle(sizes: Seq<u64>, p: int)
    requires
        sizes.len() <= usize::MAX,
        0 <= p < sizes.len(),
    ensures
        ({
            let order = ordering::order_of(sizes, false);
            let middle = sizes.len() as int / 2;
            &&& p < middle ==> sizes[order[p] as int] <= median(sizes)
            &&& p >= middle ==> sizes[order[p] as int] >= median(sizes)
        }),
        sizes.len() % 2 == 1 ==> exists|i: int|
            0 <= i < sizes.len() && (#[trigger] sizes[i]) == median(sizes),
        sizes.len() % 2 == 0 ==> {
            let order = ordering::order_of(sizes, false);
            let middle = sizes.len() as int / 2;
            let both = sizes[order[middle - 1] as int] + sizes[order[middle] as int];
            both - 1 <= 2 * median(sizes) <= both
        },
{
    let order = ordering::order_of(sizes, false);
    let middle = sizes.len() as int / 2;
    ordering::lemma_order_exists(sizes, false);
    if sizes.len() % 2 == 1 {
        assert(0 <= order[middle] < sizes.len());
        assert(sizes[order[middle] as int] == median(sizes));
    }
    if sizes.len() % 2 == 0 {
        assert(ordering::precedes(sizes, false, order[middle - 1] as int, order[middle] as int));
        if p < middle - 1 {
            assert(ordering::precedes(sizes, false, order[p] as int, order[middle - 1] as int));
        }
    }
    if p < middle {
        assert(ordering::precedes(sizes, false, order[p] as int, order[middle] as int));
    } else if p > middle {
        assert(ordering::precedes(sizes, false, order[middle] as int, order[p] as int));
    }
}

/// Files that are all of one size have that size as their median.
pub proof fn lemma_median_of_like_sizes(sizes: Seq<u64>, size: u64)
    requires
        0 < sizes.len() <= usize::MAX,
        forall|i: int| 0 <= i < sizes.len() ==> (#[trigger] sizes[i]) == size,
    ensures
        median(sizes) == size,
{
    let order = ordering::order_of(sizes, false);
    let middle = sizes.len() as int / 2;
    ordering::lemma_order_exists(sizes, false);
    assert(0 <= order[middle] < sizes.len());
    assert(sizes[order[middle] as int] == size);
    if sizes.len() % 2 == 0 {
        assert(0 <= order[middle - 1] < sizes.len());
        assert(sizes[order[middle - 1] as int] == size);
    }
}

/// A cap that is set is kept to. One that is not is as large as the byte budget allows for
/// files of the median size, and never less than one file.
pub proof fn lemma_cap_goes_by_the_byte_budget(config: BatchConfig, entries: Seq<Entry>)
    requires
        config.max_bytes_per_batch <= usize::MAX,
    ensures
        config.max_files_per_batch matches Some(n) ==> files_cap(config, entries) == n,
        config.max_files_per_batch is None ==> files_cap(config, entries) >= 1,
        config.max_files_per_batch is None && 0 < median(sizes_of(entries))
            <= config.max_bytes_per_batch ==> {
            let cap = files_cap(config, entries);
            let middle = median(sizes_of(entries));
            &&& cap * middle <= config.max_bytes_per_batch
            &&& config.max_bytes_per_batch < (cap + 1) * middle
        },
        config.max_files_per_batch is None && median(sizes_of(entries))
            > config.max_bytes_per_batch ==> files_cap(config, entries) == 1,
        config.max_files_per_batch is None && median(sizes_of(entries)) == 0 ==> files_cap(
            config,
            entries,
        ) == 1000,
{
    let middle = median(sizes_of(entries));
    let budget = config.max_bytes_per_batch as int;
    if middle > 0 {
        let cap = budget / middle;
        assert(cap * middle <= budget && budget < (cap + 1) * middle && 0 <= cap <= budget)
            by (nonlinear_arith)
            requires
                cap == budget / middle,
                middle > 0,
                budget >= 0,
        ;
        if middle <= budget {
            assert(cap >= 1) by (nonlinear_arith)
                requires
                    cap == budget / middle,
                    0 < middle <= budget,
            ;
        } else {
            assert(cap == 0) by (nonlinear_arith)
                requires
                    cap == budget / middle,
                    middle > budget,
                    budget >= 0,
            ;
        }
    }
}

/// Where nothing is set, a failure does not keep the other files from being handled.
pub proof fn lemma_default_goes_on()
    ensures
        default_config().error_strategy == ErrorStrategy::ContinueAndCollect,
        default_config().max_files_per_batch is None,
        default_config().max_bytes_per_batch == 8_388_608,
        default_config().sort_order == SortOrder::Descending,
{
}

} // verus!
