use vstd::prelude::*;

verus! {

/// Whether item `i` stands in front of item `j` when items are ordered by key:
/// items with equal keys keep the order they came in.
pub open spec fn precedes(keys: Seq<u64>, descending: bool, i: int, j: int) -> bool {
    if keys[i] == keys[j] {
        i < j
    } else if descending {
        keys[i] > keys[j]
    } else {
        keys[i] < keys[j]
    }
}

/// Whether `order` lists the positions of `keys` in order. There is exactly one
/// such list: `precedes` is a strict total order on the positions.
pub open spec fn is_stable_order(keys: Seq<u64>, descending: bool, order: Seq<usize>) -> bool {
    &&& order.len() == keys.len()
    &&& ordered_within(keys, descending, order, 0, keys.len() as int)
}

/// Whether `order` holds positions from `low` up to `high`, each in front of all
/// that follow it.
pub open spec fn ordered_within(
    keys: Seq<u64>,
    descending: bool,
    order: Seq<usize>,
    low: int,
    high: int,
) -> bool {
    &&& forall|p: int| 0 <= p < order.len() ==> low <= #[trigger] order[p] < high
    &&& forall|p: int, q: int|
        0 <= p < q < order.len() ==> precedes(
            keys,
            descending,
            #[trigger] order[p] as int,
            #[trigger] order[q] as int,
        )
}

/// The position of the first of two items in the order.
fn comes_first(keys: &Vec<u64>, descending: bool, i: usize, j: usize) -> (r: bool)
    requires
        i < keys@.len(),
        j < keys@.len(),
    ensures
        r == precedes(keys@, descending, i as int, j as int),
{
    if keys[i] == keys[j] {
        i < j
    } else if descending {
        keys[i] > keys[j]
    } else {
        keys[i] < keys[j]
    }
}

/// Merges two ordered lists, where every position of `left` is below every
/// position of `right`.
fn merge(
    keys: &Vec<u64>,
    descending: bool,
    left: &Vec<usize>,
    right: &Vec<usize>,
    Ghost(low): Ghost<int>,
    Ghost(middle): Ghost<int>,
    Ghost(high): Ghost<int>,
) -> (r: Vec<usize>)
    requires
        0 <= low <= middle <= high <= keys@.len(),
        left@.len() + right@.len() <= usize::MAX,
        ordered_within(keys@, descending, left@, low, middle),
        ordered_within(keys@, descending, right@, middle, high),
    ensures
        r@.len() == left@.len() + right@.len(),
        ordered_within(keys@, descending, r@, low, high),
{
    let mut out: Vec<usize> = Vec::with_capacity(left.len() + right.len());
    let mut a: usize = 0;
    let mut b: usize = 0;
    while a < left.len() || b < right.len()
        invariant
            0 <= low <= middle <= high <= keys@.len(),
            left@.len() + right@.len() <= usize::MAX,
            ordered_within(keys@, descending, left@, low, middle),
            ordered_within(keys@, descending, right@, middle, high),
            a <= left@.len(),
            b <= right@.len(),
            out@.len() == a + b,
            ordered_within(keys@, descending, out@, low, high),
            forall|p: int, q: int|
                0 <= p < out@.len() && a <= q < left@.len() ==> precedes(
                    keys@,
                    descending,
                    #[trigger] out@[p] as int,
                    #[trigger] left@[q] as int,
                ),
            forall|p: int, q: int|
                0 <= p < out@.len() && b <= q < right@.len() ==> precedes(
                    keys@,
                    descending,
                    #[trigger] out@[p] as int,
                    #[trigger] right@[q] as int,
                ),
        decreases left@.len() - a + right@.len() - b,
    {
        let take_left = if a == left.len() {
            false
        } else if b == right.len() {
            true
        } else {
            comes_first(keys, descending, left[a], right[b])
        };
        if take_left {
            out.push(left[a]);
            a = a + 1;
        } else {
            out.push(right[b]);
            b = b + 1;
        }
    }
    out
}

fn order_range(keys: &Vec<u64>, descending: bool, low: usize, high: usize) -> (r: Vec<usize>)
    requires
        low <= high <= keys@.len(),
    ensures
        r@.len() == high - low,
        ordered_within(keys@, descending, r@, low as int, high as int),
    decreases high - low,
{
    let mut out: Vec<usize> = Vec::new();
    if high - low >= 2 {
        let middle: usize = low + (high - low) / 2;
        let left = order_range(keys, descending, low, middle);
        let right = order_range(keys, descending, middle, high);
        out = merge(
            keys,
            descending,
            &left,
            &right,
            Ghost(low as int),
            Ghost(middle as int),
            Ghost(high as int),
        );
    } else if high - low == 1 {
        out.push(low);
    }
    out
}

/// The positions of `keys`, ordered by key; equal keys keep their order.
pub fn stable_order(keys: &Vec<u64>, descending: bool) -> (r: Vec<usize>)
    ensures
        is_stable_order(keys@, descending, r@),
{
    order_range(keys, descending, 0, keys.len())
}

/// An order lists every position once.
pub proof fn lemma_stable_order_is_permutation(keys: Seq<u64>, descending: bool, order: Seq<usize>)
    requires
        is_stable_order(keys, descending, order),
    ensures
        order.no_duplicates(),
        forall|i: int| 0 <= i < keys.len() ==> order.contains(#[trigger] (i as usize)) || i > usize::MAX,
{
    assert(order.no_duplicates()) by {
        assert forall|p: int, q: int| 0 <= p < order.len() && 0 <= q < order.len() && p
            != q implies order[p] != order[q] by {
            if p < q {
                assert(precedes(keys, descending, order[p] as int, order[q] as int));
            } else {
                assert(precedes(keys, descending, order[q] as int, order[p] as int));
            }
        }
    }
    let wide = order.map_values(|x: usize| x as int);
    assert(wide.no_duplicates());
    wide.unique_seq_to_set();
    let range = vstd::set_lib::set_int_range(0, keys.len() as int);
    vstd::set_lib::lemma_int_range(0, keys.len() as int);
    assert(wide.to_set().subset_of(range)) by {
        assert forall|x: int| wide.to_set().contains(x) implies range.contains(x) by {
            let p = choose|p: int| 0 <= p < wide.len() && wide[p] == x;
            assert(order[p] as int == x);
        }
    }
    vstd::set_lib::lemma_subset_equality(wide.to_set(), range);
    assert forall|i: int| 0 <= i < keys.len() implies order.contains(#[trigger] (i as usize)) || i
        > usize::MAX by {
        assert(range.contains(i));
        assert(wide.to_set().contains(i));
        let p = choose|p: int| 0 <= p < wide.len() && wide[p] == i;
        assert(order[p] as int == i);
    }
}

/// The positions of `keys` in order.
pub open spec fn order_of(keys: Seq<u64>, descending: bool) -> Seq<usize> {
    choose|order: Seq<usize>| is_stable_order(keys, descending, order)
}

/// Where the new position `x` goes into an order: behind what is in front of it.
proof fn lemma_insertion_point(keys: Seq<u64>, descending: bool, order: Seq<usize>, x: int) -> (p:
    int)
    requires
        0 <= x < keys.len(),
        ordered_within(keys, descending, order, 0, x),
    ensures
        0 <= p <= order.len(),
        forall|q: int| 0 <= q < p ==> precedes(keys, descending, #[trigger] order[q] as int, x),
        forall|q: int|
            p <= q < order.len() ==> precedes(keys, descending, x, #[trigger] order[q] as int),
    decreases order.len(),
{
    if order.len() == 0 {
        0
    } else if precedes(keys, descending, order.last() as int, x) {
        assert forall|q: int| 0 <= q < order.len() implies precedes(
            keys,
            descending,
            #[trigger] order[q] as int,
            x,
        ) by {
            if q < order.len() - 1 {
                assert(precedes(
                    keys,
                    descending,
                    order[q] as int,
                    order[order.len() - 1] as int,
                ));
            }
        }
        order.len() as int
    } else {
        let front = order.drop_last();
        let p = lemma_insertion_point(keys, descending, front, x);
        assert forall|q: int| 0 <= q < p implies precedes(
            keys,
            descending,
            #[trigger] order[q] as int,
            x,
        ) by {
            assert(front[q] == order[q]);
        }
        assert forall|q: int| p <= q < order.len() implies precedes(
            keys,
            descending,
            x,
            #[trigger] order[q] as int,
        ) by {
            if q < front.len() {
                assert(front[q] == order[q]);
            }
        }
        p
    }
}

/// There is an order.
pub proof fn lemma_order_exists(keys: Seq<u64>, descending: bool)
    requires
        keys.len() <= usize::MAX,
    ensures
        is_stable_order(keys, descending, order_of(keys, descending)),
    decreases keys.len(),
{
    if keys.len() == 0 {
        assert(is_stable_order(keys, descending, Seq::<usize>::empty()));
    } else {
        let front = keys.drop_last();
        let x = keys.len() - 1;
        lemma_order_exists(front, descending);
        let before = order_of(front, descending);
        assert(ordered_within(keys, descending, before, 0, x)) by {
            assert forall|p: int, q: int| 0 <= p < q < before.len() implies precedes(
                keys,
                descending,
                #[trigger] before[p] as int,
                #[trigger] before[q] as int,
            ) by {
                assert(precedes(front, descending, before[p] as int, before[q] as int));
            }
        }
        let p = lemma_insertion_point(keys, descending, before, x);
        let order = before.insert(p, x as usize);
        assert(is_stable_order(keys, descending, order)) by {
            assert forall|a: int, b: int| 0 <= a < b < order.len() implies precedes(
                keys,
                descending,
                #[trigger] order[a] as int,
                #[trigger] order[b] as int,
            ) by {
                let from = if a < p {
                    a
                } else {
                    a - 1
                };
                let to = if b < p {
                    b
                } else {
                    b - 1
                };
                if a != p {
                    assert(order[a] == before[from]);
                }
                if b != p {
                    assert(order[b] == before[to]);
                }
                if a != p && b != p {
                    assert(precedes(keys, descending, before[from] as int, before[to] as int));
                }
            }
        }
    }
}

/// There is one order only.
pub proof fn lemma_order_is_unique(keys: Seq<u64>, descending: bool, order: Seq<usize>)
    requires
        is_stable_order(keys, descending, order),
    ensures
        order == order_of(keys, descending),
{
    let other = order_of(keys, descending);
    assert(is_stable_order(keys, descending, other));
    lemma_same_prefix(keys, descending, order, other, keys.len() as int);
    assert(order =~= other);
}

proof fn lemma_same_prefix(
    keys: Seq<u64>,
    descending: bool,
    a: Seq<usize>,
    b: Seq<usize>,
    count: int,
)
    requires
        is_stable_order(keys, descending, a),
        is_stable_order(keys, descending, b),
        0 <= count <= keys.len(),
    ensures
        forall|p: int| 0 <= p < count ==> a[p] == b[p],
    decreases count,
{
    if count > 0 {
        lemma_same_prefix(keys, descending, a, b, count - 1);
        lemma_next_is_not_behind(keys, descending, a, b, count - 1);
        lemma_next_is_not_behind(keys, descending, b, a, count - 1);
    }
}

/// Where two orders agree up to `p`, what `a` has at `p` is not behind what `b`
/// has there.
proof fn lemma_next_is_not_behind(
    keys: Seq<u64>,
    descending: bool,
    a: Seq<usize>,
    b: Seq<usize>,
    p: int,
)
    requires
        is_stable_order(keys, descending, a),
        is_stable_order(keys, descending, b),
        0 <= p < keys.len(),
        forall|q: int| 0 <= q < p ==> a[q] == b[q],
    ensures
        a[p] == b[p] || precedes(keys, descending, a[p] as int, b[p] as int),
{
    lemma_stable_order_is_permutation(keys, descending, a);
    lemma_stable_order_is_permutation(keys, descending, b);
    let x = b[p];
    assert(a.contains((x as int) as usize));
    let q = choose|q: int| 0 <= q < a.len() && a[q] == x;
    if q < p {
        assert(b[q] == x);
    } else if q > p {
        assert(precedes(keys, descending, a[p] as int, a[q] as int));
    }
}

/// The items of `list` at the positions that `order` gives.
pub open spec fn arranged<T>(list: Seq<T>, order: Seq<usize>) -> Seq<T> {
    Seq::new(order.len(), |p: int| list[order[p] as int])
}

/// An arrangement by distinct positions holds the same items as the list.
pub proof fn lemma_arranged_holds_same_items<T>(list: Seq<T>, order: Seq<usize>)
    requires
        order.len() == list.len(),
        order.no_duplicates(),
        forall|p: int| 0 <= p < order.len() ==> (#[trigger] order[p]) < list.len(),
    ensures
        arranged(list, order).to_multiset() == list.to_multiset(),
    decreases list.len(),
{
    broadcast use vstd::seq_lib::group_to_multiset_ensures;

    if list.len() == 0 {
        assert(arranged(list, order) =~= list);
    } else {
        let k = order.last();
        let rest = list.remove(k as int);
        let front = order.drop_last();
        let moved = front.map_values(|x: usize| if x > k { (x - 1) as usize } else { x });
        assert forall|p: int| 0 <= p < moved.len() implies (#[trigger] moved[p]) < rest.len() by {
            assert(order[p] != order[order.len() - 1]);
        }
        assert(moved.no_duplicates()) by {
            assert forall|p: int, q: int| 0 <= p < moved.len() && 0 <= q < moved.len() && p
                != q implies moved[p] != moved[q] by {
                assert(order[p] != order[q]);
                assert(order[p] != order[order.len() - 1]);
                assert(order[q] != order[order.len() - 1]);
            }
        }
        lemma_arranged_holds_same_items(rest, moved);
        assert(arranged(list, order).drop_last() =~= arranged(rest, moved)) by {
            assert forall|p: int| 0 <= p < front.len() implies arranged(list, order)[p]
                == #[trigger] arranged(rest, moved)[p] by {
                assert(order[p] != order[order.len() - 1]);
            }
        }
        assert(arranged(list, order) =~= arranged(rest, moved).push(list[k as int]));
        assert(arranged(list, order).to_multiset() =~= rest.to_multiset().insert(list[k as int]));
        assert(list.to_multiset() =~= rest.to_multiset().insert(list[k as int])) by {
            assert(list.to_multiset().count(list[k as int]) > 0) by {
                assert(list.contains(list[k as int]));
            }
            assert(rest.to_multiset() =~= list.to_multiset().remove(list[k as int]));
        }
    }
}

} // verus!
