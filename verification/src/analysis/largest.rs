use vstd::multiset::Multiset;
use vstd::prelude::*;

use super::report::Entry;

verus! {

/// Whether sizes never grow from one entry to the next.
pub open spec fn descending(entries: Seq<Entry>) -> bool {
    forall|i: int, j: int|
        0 <= i < j < entries.len() ==> (#[trigger] entries[i]).size >= (#[trigger] entries[j]).size
}

/// Whether `seen` is made of `kept` and `rest`, with nothing in `rest` larger than what is
/// kept.
pub open spec fn splits(kept: Seq<Entry>, rest: Multiset<Entry>, seen: Seq<Entry>) -> bool {
    &&& seen.to_multiset() == kept.to_multiset().add(rest)
    &&& forall|e: Entry, i: int|
        #![trigger rest.count(e), kept[i]]
        rest.count(e) > 0 && 0 <= i < kept.len() ==> e.size <= kept[i].size
}

/// Whether `kept` are the `limit` largest of `seen`, largest first. Which of several
/// entries of one size are kept is left open.
pub open spec fn are_largest(kept: Seq<Entry>, seen: Seq<Entry>, limit: usize) -> bool {
    &&& kept.len() == if seen.len() < limit {
        seen.len()
    } else {
        limit as nat
    }
    &&& descending(kept)
    &&& exists|rest: Multiset<Entry>| #[trigger] splits(kept, rest, seen)
}

/// Without any entry there is no largest one.
pub proof fn lemma_no_largest(limit: usize)
    ensures
        are_largest(Seq::empty(), Seq::empty(), limit),
{
    broadcast use vstd::seq_lib::group_to_multiset_ensures;

    let none = Seq::<Entry>::empty();
    let rest = Multiset::<Entry>::empty();
    assert(none.to_multiset() =~= none.to_multiset().add(rest));
    assert(splits(none, rest, none));
}

/// Takes one more entry into the `limit` largest ones. It takes the place of the smallest
/// where it is strictly larger.
pub(crate) fn keep_largest(
    kept: Vec<Entry>,
    entry: &Entry,
    limit: usize,
    Ghost(seen): Ghost<Seq<Entry>>,
) -> (r: Vec<Entry>)
    requires
        are_largest(kept@, seen, limit),
    ensures
        are_largest(r@, seen.push(*entry), limit),
{
    broadcast use vstd::seq_lib::group_to_multiset_ensures;

    let ghost rest = choose|rest: Multiset<Entry>| #[trigger] splits(kept@, rest, seen);
    let ghost now = seen.push(*entry);
    let mut kept = kept;
    let ghost before = kept@;
    if limit == 0 {
        proof {
            let more = rest.insert(*entry);
            assert(now.to_multiset() =~= before.to_multiset().add(more));
            assert(splits(before, more, now));
        }
        return kept;
    }
    if kept.len() == limit && kept[limit - 1].size >= entry.size {
        proof {
            let more = rest.insert(*entry);
            assert(now.to_multiset() =~= before.to_multiset().add(more));
            assert forall|e: Entry, i: int|
                #![trigger more.count(e), before[i]]
                more.count(e) > 0 && 0 <= i < before.len() implies e.size <= before[i].size by {
                if e == *entry {
                    assert(before[i].size >= before[limit - 1].size);
                } else {
                    assert(rest.count(e) > 0);
                }
            }
            assert(splits(before, more, now));
        }
        return kept;
    }
    let ghost mut left_out = rest;
    if kept.len() == limit {
        let dropped = kept.pop();
        proof {
            let smallest = before[limit - 1];
            left_out = rest.insert(smallest);
            assert(before =~= kept@.push(smallest));
            assert(now.to_multiset() =~= kept@.to_multiset().insert(*entry).add(left_out));
            assert forall|e: Entry, i: int|
                #![trigger left_out.count(e), kept@[i]]
                left_out.count(e) > 0 && 0 <= i < kept@.len() implies e.size <= kept@[i].size by {
                assert(kept@[i] == before[i]);
                if e != smallest {
                    assert(rest.count(e) > 0);
                }
            }
            assert forall|e: Entry| #[trigger] left_out.count(e) > 0 implies e.size
                <= entry.size by {
                if e != smallest {
                    assert(rest.count(e) > 0);
                    assert(e.size <= before[limit - 1].size);
                }
            }
        }
    } else {
        proof {
            assert(now.to_multiset() =~= kept@.to_multiset().insert(*entry).add(left_out));
            assert(seen.to_multiset().len() == before.to_multiset().len() + rest.len());
            assert(rest.len() == 0);
            assert forall|e: Entry| #[trigger] left_out.count(e) > 0 implies e.size
                <= entry.size by {
                assert(rest.count(e) == 0);
            }
        }
    }
    let ghost shorter = kept@;
    let mut at: usize = 0;
    while at < kept.len() && kept[at].size >= entry.size
        invariant
            at <= kept@.len(),
            forall|i: int| 0 <= i < at ==> (#[trigger] kept@[i]).size >= entry.size,
        decreases kept@.len() - at,
    {
        at = at + 1;
    }
    kept.insert(at, entry.clone());
    proof {
        assert(kept@ == shorter.insert(at as int, *entry));
        assert(kept@.to_multiset() == shorter.to_multiset().insert(*entry));
        assert forall|i: int| at < i < kept@.len() implies (#[trigger] kept@[i]).size
            <= entry.size by {
            assert(kept@[i] == shorter[i - 1]);
            assert(shorter[at as int].size < entry.size);
            if at < i - 1 {
                assert(shorter[at as int].size >= shorter[i - 1].size);
            }
        }
        assert forall|i: int| 0 <= i < at implies (#[trigger] kept@[i]) == shorter[i] by {}
        assert(descending(kept@));
        assert forall|e: Entry, i: int|
            #![trigger left_out.count(e), kept@[i]]
            left_out.count(e) > 0 && 0 <= i < kept@.len() implies e.size <= kept@[i].size by {
            if i < at {
                assert(kept@[i] == shorter[i]);
            } else if i > at {
                assert(kept@[i] == shorter[i - 1]);
            }
        }
        assert(splits(kept@, left_out, now));
    }
    kept
}

/// What is kept was seen, and every file that was seen and is larger than one that is kept is
/// kept itself. Where fewer files were seen than are asked for, all of them are kept.
pub proof fn lemma_nothing_larger_is_left_out(
    kept: Seq<Entry>,
    seen: Seq<Entry>,
    limit: usize,
    entry: Entry,
    i: int,
)
    requires
        are_largest(kept, seen, limit),
    ensures
        kept.contains(entry) ==> seen.contains(entry),
        seen.contains(entry) && 0 <= i < kept.len() && entry.size > kept[i].size ==> kept.contains(
            entry,
        ),
        seen.len() <= limit && seen.contains(entry) ==> kept.contains(entry),
        kept.len() <= limit,
        kept.len() <= seen.len(),
        seen.len() >= limit ==> kept.len() == limit,
{
    broadcast use vstd::seq_lib::group_to_multiset_ensures;

    let rest = choose|rest: Multiset<Entry>| #[trigger] splits(kept, rest, seen);
    assert(seen.to_multiset().len() == kept.to_multiset().len() + rest.len());
    if kept.contains(entry) {
        assert(kept.to_multiset().count(entry) > 0);
        assert(seen.to_multiset().count(entry) > 0);
    }
    if seen.contains(entry) && !kept.contains(entry) {
        assert(seen.to_multiset().count(entry) > 0);
        assert(kept.to_multiset().count(entry) == 0);
        assert(rest.count(entry) > 0);
        if 0 <= i < kept.len() {
            assert(entry.size <= kept[i].size);
        }
        if seen.len() <= limit {
            assert(rest.len() == 0);
            assert(rest.count(entry) == 0);
        }
    }
}

} // verus!
