use vstd::prelude::*;

use super::config;
use super::config::{BatchConfig, SortOrder};
use crate::ordering;
use crate::profiler;
use crate::profiler::Entry;

verus! {

/// Files that one worker takes one after the other.
#[derive(Debug)]
pub struct Batch {
    pub entries: Vec<Entry>,
    pub total_bytes: u64,
}

impl Batch {
    /// Whether the total is the sum of the sizes.
    pub open spec fn wf(self) -> bool {
        self.total_bytes == profiler::sizes_sum(self.entries@)
    }
}

/// The entries of each batch.
pub open spec fn contents(batches: Seq<Batch>) -> Seq<Seq<Entry>> {
    batches.map_values(|b: Batch| b.entries@)
}

/// `entries` by size; files of the same size keep their order.
pub open spec fn by_size(entries: Seq<Entry>, order: SortOrder) -> Seq<Entry> {
    ordering::arranged(
        entries,
        ordering::order_of(config::sizes_of(entries), order == SortOrder::Descending),
    )
}

/// Whether `batch` has room for one more file of `size` bytes.
pub open spec fn has_room(batch: Seq<Entry>, size: u64, max_bytes: u64, max_files: usize) -> bool {
    profiler::sizes_sum(batch) + size <= max_bytes && batch.len() < max_files
}

/// `entries` cut into batches: each file joins the last batch where that has room,
/// and starts a batch of its own otherwise.
pub open spec fn packed(entries: Seq<Entry>, max_bytes: u64, max_files: usize) -> Seq<Seq<Entry>>
    decreases entries.len(),
{
    if entries.len() == 0 {
        Seq::empty()
    } else {
        let before = packed(entries.drop_last(), max_bytes, max_files);
        let entry = entries.last();
        if before.len() > 0 && has_room(before.last(), entry.size, max_bytes, max_files) {
            before.drop_last().push(before.last().push(entry))
        } else {
            before.push(seq![entry])
        }
    }
}

/// Puts `entries` in the order that `order` gives.
fn arrange(entries: Vec<Entry>, order: &Vec<usize>) -> (r: Vec<Entry>)
    requires
        order@.len() == entries@.len(),
        order@.no_duplicates(),
        forall|p: int| 0 <= p < order@.len() ==> (#[trigger] order@[p]) < entries@.len(),
    ensures
        r@ == ordering::arranged(entries@, order@),
{
    let ghost all = entries@;
    let mut slots: Vec<Option<Entry>> = Vec::with_capacity(entries.len());
    for entry in it: entries
        invariant
            it.seq() == all,
            slots@.len() == it.index(),
            forall|j: int| 0 <= j < it.index() ==> #[trigger] slots@[j] == Some(all[j]),
    {
        slots.push(Some(entry));
    }
    let mut out: Vec<Entry> = Vec::with_capacity(slots.len());
    let mut p: usize = 0;
    while p < order.len()
        invariant
            p <= order@.len(),
            order@.len() == all.len(),
            slots@.len() == all.len(),
            order@.no_duplicates(),
            forall|q: int| 0 <= q < order@.len() ==> (#[trigger] order@[q]) < all.len(),
            forall|q: int|
                p <= q < order@.len() ==> slots@[#[trigger] order@[q] as int] == Some(
                    all[order@[q] as int],
                ),
            out@ == ordering::arranged(all, order@.take(p as int)),
        decreases order@.len() - p,
    {
        let position: usize = order[p];
        let ghost before = slots@;
        if let Some(entry) = slots[position].take() {
            out.push(entry);
        }
        proof {
            assert forall|q: int| p + 1 <= q < order@.len() implies slots@[#[trigger] order@[q] as int]
                == Some(all[order@[q] as int]) by {
                assert(order@[q] != order@[p as int]);
                assert(slots@[order@[q] as int] == before[order@[q] as int]);
            }
            assert(out@ =~= ordering::arranged(all, order@.take(p + 1)));
        }
        p = p + 1;
    }
    assert(order@.take(order@.len() as int) =~= order@);
    out
}

/// Packs `entries` into batches under the two caps of `config`. They are ordered
/// by size first, so that files of like size share a batch.
pub fn pack(entries: Vec<Entry>, config: &BatchConfig) -> (r: Vec<Batch>)
    ensures
        contents(r@) == packed(
            by_size(entries@, config.sort_order),
            config.max_bytes_per_batch,
            config::files_cap(*config, entries@),
        ),
        forall|i: int| 0 <= i < r@.len() ==> (#[trigger] r@[i]).wf(),
{
    let max_files: usize = config.resolved_max_files_per_batch(&entries);
    let max_bytes: u64 = config.max_bytes_per_batch;
    let ghost all = entries@;
    let sizes = config::entry_sizes(&entries);
    let descending = match config.sort_order {
        SortOrder::Ascending => false,
        SortOrder::Descending => true,
    };
    let order = ordering::stable_order(&sizes, descending);
    proof {
        ordering::lemma_order_is_unique(sizes@, descending, order@);
        ordering::lemma_stable_order_is_permutation(sizes@, descending, order@);
    }
    let arranged = arrange(entries, &order);
    let ghost list = arranged@;
    assert(list == by_size(all, config.sort_order));

    let mut batches: Vec<Batch> = Vec::new();
    let mut current = Batch { entries: Vec::new(), total_bytes: 0 };
    assert(list.take(0) =~= Seq::<Entry>::empty());
    assert(contents(batches@) =~= Seq::<Seq<Entry>>::empty());
    for entry in it: arranged
        invariant
            it.seq() == list,
            current.wf(),
            forall|i: int| 0 <= i < batches@.len() ==> (#[trigger] batches@[i]).wf(),
            it.index() == 0 ==> batches@.len() == 0 && current.entries@.len() == 0,
            it.index() > 0 ==> current.entries@.len() > 0 && contents(batches@).push(
                current.entries@,
            ) == packed(list.take(it.index()), max_bytes, max_files),
    {
        let ghost i = it.index();
        proof {
            assert(list.take(i + 1).drop_last() =~= list.take(i));
            assert(list.take(i + 1).last() == entry);
            assert(list.take(0) =~= Seq::<Entry>::empty());
        }
        let fits_bytes = match current.total_bytes.checked_add(entry.size) {
            Some(total) => total <= max_bytes,
            None => false,
        };
        let fits_count = current.entries.len() < max_files;
        if !current.entries.is_empty() && !(fits_bytes && fits_count) {
            let ghost done = contents(batches@);
            let ghost last = current.entries@;
            batches.push(current);
            assert(contents(batches@) =~= done.push(last));
            current = Batch { entries: Vec::new(), total_bytes: 0 };
        }
        let ghost fresh = current.entries@;
        assert(current.total_bytes == profiler::sizes_sum(fresh));
        current.total_bytes = current.total_bytes + entry.size;
        current.entries.push(entry);
        proof {
            assert(current.entries@.drop_last() =~= fresh);
            assert(profiler::sizes_sum(current.entries@) == profiler::sizes_sum(fresh) + entry.size);
            let before = packed(list.take(i), max_bytes, max_files);
            if fresh.len() == 0 {
                assert(current.entries@ =~= seq![entry]);
                assert(contents(batches@) =~= before);
            } else {
                assert(contents(batches@) =~= before.drop_last());
            }
            assert(contents(batches@).push(current.entries@) =~= packed(
                list.take(i + 1),
                max_bytes,
                max_files,
            ));
        }
    }
    assert(list.take(list.len() as int) =~= list);
    if !current.entries.is_empty() {
        let ghost done = contents(batches@);
        let ghost last = current.entries@;
        batches.push(current);
        assert(contents(batches@) =~= done.push(last));
    }
    batches
}

/// Packing loses nothing and repeats nothing: read one after the other, the
/// batches are the packed files again.
pub proof fn lemma_packed_flattens(entries: Seq<Entry>, max_bytes: u64, max_files: usize)
    ensures
        packed(entries, max_bytes, max_files).flatten() == entries,
    decreases entries.len(),
{
    let batches = packed(entries, max_bytes, max_files);
    if entries.len() == 0 {
        assert(batches.flatten() =~= entries);
    } else {
        let before = packed(entries.drop_last(), max_bytes, max_files);
        let entry = entries.last();
        lemma_packed_flattens(entries.drop_last(), max_bytes, max_files);
        before.lemma_flatten_and_flatten_alt_are_equivalent();
        batches.lemma_flatten_and_flatten_alt_are_equivalent();
        if before.len() > 0 && has_room(before.last(), entry.size, max_bytes, max_files) {
            assert(batches.drop_last() =~= before.drop_last());
            assert(batches.flatten_alt() =~= before.flatten_alt().push(entry));
        } else {
            assert(batches.drop_last() =~= before);
            assert(batches.flatten_alt() =~= before.flatten_alt() + seq![entry]);
        }
        assert(batches.flatten() =~= entries);
    }
}

/// Every file stands in exactly one batch: the batches hold the packed files, each
/// as often as it was given.
pub proof fn lemma_every_entry_is_packed_once(
    entries: Seq<Entry>,
    order: SortOrder,
    max_bytes: u64,
    max_files: usize,
)
    requires
        entries.len() <= usize::MAX,
    ensures
        packed(by_size(entries, order), max_bytes, max_files).flatten().to_multiset()
            == entries.to_multiset(),
{
    lemma_packed_flattens(by_size(entries, order), max_bytes, max_files);
    lemma_by_size(entries, order);
}

/// The order by size holds the same files, and goes up or down as asked.
pub proof fn lemma_by_size(entries: Seq<Entry>, order: SortOrder)
    requires
        entries.len() <= usize::MAX,
    ensures
        by_size(entries, order).to_multiset() == entries.to_multiset(),
        by_size(entries, order).len() == entries.len(),
        forall|i: int, j: int|
            0 <= i < j < entries.len() ==> if order == SortOrder::Ascending {
                (#[trigger] by_size(entries, order)[i]).size <= (#[trigger] by_size(
                    entries,
                    order,
                )[j]).size
            } else {
                by_size(entries, order)[i].size >= by_size(entries, order)[j].size
            },
{
    let sizes = config::sizes_of(entries);
    let descending = order == SortOrder::Descending;
    let positions = ordering::order_of(sizes, descending);
    ordering::lemma_order_exists(sizes, descending);
    ordering::lemma_stable_order_is_permutation(sizes, descending, positions);
    ordering::lemma_arranged_holds_same_items(entries, positions);
    assert forall|i: int, j: int| 0 <= i < j < entries.len() implies if order
        == SortOrder::Ascending {
        (#[trigger] by_size(entries, order)[i]).size <= (#[trigger] by_size(entries, order)[j]).size
    } else {
        by_size(entries, order)[i].size >= by_size(entries, order)[j].size
    } by {
        assert(ordering::precedes(sizes, descending, positions[i] as int, positions[j] as int));
    }
}

/// No batch is empty, and none goes over a cap, but for one that holds a single
/// file: such a file is neither dropped nor split.
pub proof fn lemma_caps_are_respected(entries: Seq<Entry>, max_bytes: u64, max_files: usize)
    ensures
        forall|i: int|
            0 <= i < packed(entries, max_bytes, max_files).len() ==> within_caps(
                #[trigger] packed(entries, max_bytes, max_files)[i],
                max_bytes,
                max_files,
            ),
    decreases entries.len(),
{
    if entries.len() > 0 {
        let before = packed(entries.drop_last(), max_bytes, max_files);
        let batches = packed(entries, max_bytes, max_files);
        let entry = entries.last();
        lemma_caps_are_respected(entries.drop_last(), max_bytes, max_files);
        assert forall|i: int| 0 <= i < batches.len() implies within_caps(
            #[trigger] batches[i],
            max_bytes,
            max_files,
        ) by {
            if i < batches.len() - 1 {
                assert(batches[i] == before[i]);
            } else if before.len() > 0 && has_room(before.last(), entry.size, max_bytes, max_files) {
                assert(batches[i].drop_last() =~= before.last());
            }
        }
    }
}

/// Whether a batch keeps to both caps, as far as a batch of one file can.
pub open spec fn within_caps(batch: Seq<Entry>, max_bytes: u64, max_files: usize) -> bool {
    &&& batch.len() >= 1
    &&& batch.len() == 1 || profiler::sizes_sum(batch) <= max_bytes
    &&& batch.len() == 1 || batch.len() <= max_files
}

/// A file that is larger than the byte budget has a batch of its own.
pub proof fn lemma_oversized_entry_is_alone(
    entries: Seq<Entry>,
    max_bytes: u64,
    max_files: usize,
    i: int,
    j: int,
)
    requires
        0 <= i < packed(entries, max_bytes, max_files).len(),
        0 <= j < packed(entries, max_bytes, max_files)[i].len(),
        packed(entries, max_bytes, max_files)[i][j].size > max_bytes,
    ensures
        packed(entries, max_bytes, max_files)[i].len() == 1,
{
    lemma_caps_are_respected(entries, max_bytes, max_files);
    let batch = packed(entries, max_bytes, max_files)[i];
    lemma_size_within_sum(batch, j);
}

proof fn lemma_size_within_sum(entries: Seq<Entry>, j: int)
    requires
        0 <= j < entries.len(),
    ensures
        entries[j].size <= profiler::sizes_sum(entries),
    decreases entries.len(),
{
    lemma_sum_is_not_negative(entries.drop_last());
    if j < entries.len() - 1 {
        lemma_size_within_sum(entries.drop_last(), j);
    }
}

proof fn lemma_sum_is_not_negative(entries: Seq<Entry>)
    ensures
        0 <= profiler::sizes_sum(entries),
    decreases entries.len(),
{
    if entries.len() > 0 {
        lemma_sum_is_not_negative(entries.drop_last());
    }
}

/// A batch is closed only where the next file does not fit: by its bytes, or because the
/// batch holds as many files as it may. So no two neighbouring batches could be one.
pub proof fn lemma_batch_is_closed_only_where_full(
    entries: Seq<Entry>,
    max_bytes: u64,
    max_files: usize,
    i: int,
)
    requires
        0 <= i < packed(entries, max_bytes, max_files).len() - 1,
    ensures
        ({
            let batches = packed(entries, max_bytes, max_files);
            batches[i + 1].len() > 0 && (profiler::sizes_sum(batches[i]) + batches[i + 1][0].size
                > max_bytes || batches[i].len() >= max_files)
        }),
    decreases entries.len(),
{
    let batches = packed(entries, max_bytes, max_files);
    let front = entries.drop_last();
    let before = packed(front, max_bytes, max_files);
    let entry = entries.last();
    lemma_caps_are_respected(front, max_bytes, max_files);
    if before.len() > 0 && has_room(before.last(), entry.size, max_bytes, max_files) {
        lemma_batch_is_closed_only_where_full(front, max_bytes, max_files, i);
        assert(batches[i] == before[i]);
        assert(within_caps(before[i + 1], max_bytes, max_files));
        if i + 1 == before.len() - 1 {
            assert(batches[i + 1] == before[i + 1].push(entry));
            assert(batches[i + 1][0] == before[i + 1][0]);
        } else {
            assert(batches[i + 1] == before[i + 1]);
        }
    } else if i + 1 < before.len() {
        lemma_batch_is_closed_only_where_full(front, max_bytes, max_files, i);
        assert(batches[i] == before[i]);
        assert(batches[i + 1] == before[i + 1]);
    } else {
        assert(batches[i] == before.last());
        assert(batches[i + 1] == seq![entry]);
    }
}

/// Where both caps allow it, all files share one batch.
pub proof fn lemma_what_fits_shares_one_batch(entries: Seq<Entry>, max_bytes: u64, max_files: usize)
    requires
        entries.len() > 0,
        profiler::sizes_sum(entries) <= max_bytes,
        entries.len() <= max_files,
    ensures
        packed(entries, max_bytes, max_files) == seq![entries],
    decreases entries.len(),
{
    let front = entries.drop_last();
    lemma_sum_is_not_negative(front);
    if front.len() == 0 {
        assert(packed(front, max_bytes, max_files).len() == 0);
        assert(seq![entries.last()] =~= entries);
        assert(packed(entries, max_bytes, max_files) =~= seq![entries]);
    } else {
        lemma_what_fits_shares_one_batch(front, max_bytes, max_files);
        assert(seq![front].last() == front);
        assert(front.push(entries.last()) =~= entries);
        assert(packed(entries, max_bytes, max_files) =~= seq![entries]);
    }
}

/// Files of one size keep the order in which they were given.
pub proof fn lemma_like_sizes_keep_their_order(entries: Seq<Entry>, order: SortOrder, p: int, q: int)
    requires
        entries.len() <= usize::MAX,
        0 <= p < q < entries.len(),
    ensures
        ({
            let positions = ordering::order_of(
                config::sizes_of(entries),
                order == SortOrder::Descending,
            );
            &&& by_size(entries, order)[p] == entries[positions[p] as int]
            &&& by_size(entries, order)[p].size == by_size(entries, order)[q].size ==> positions[p]
                < positions[q]
        }),
{
    let sizes = config::sizes_of(entries);
    let descending = order == SortOrder::Descending;
    let positions = ordering::order_of(sizes, descending);
    ordering::lemma_order_exists(sizes, descending);
    assert(ordering::precedes(sizes, descending, positions[p] as int, positions[q] as int));
    assert(sizes[positions[p] as int] == entries[positions[p] as int].size);
    assert(sizes[positions[q] as int] == entries[positions[q] as int].size);
}

} // verus!
