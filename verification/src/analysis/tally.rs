use vstd::hash_map::StringHashMap;
use vstd::prelude::*;

verus! {

/// How many sizes were added under one name, and their sum.
#[derive(Debug, Clone, Copy, PartialEq, Eq, Structural)]
pub struct Totals {
    pub count: usize,
    pub total_size: u64,
}

/// How many items of `history` have the name.
pub open spec fn count_of(history: Seq<(Seq<char>, u64)>, name: Seq<char>) -> nat
    decreases history.len(),
{
    if history.len() == 0 {
        0
    } else {
        count_of(history.drop_last(), name) + if history.last().0 == name {
            1nat
        } else {
            0nat
        }
    }
}

/// The sum of the sizes in `history` that have the name.
pub open spec fn size_of(history: Seq<(Seq<char>, u64)>, name: Seq<char>) -> nat
    decreases history.len(),
{
    if history.len() == 0 {
        0
    } else {
        size_of(history.drop_last(), name) + if history.last().0 == name {
            history.last().1 as nat
        } else {
            0nat
        }
    }
}

/// The sum of all sizes in `history`.
pub open spec fn size_of_all(history: Seq<(Seq<char>, u64)>) -> nat
    decreases history.len(),
{
    if history.len() == 0 {
        0
    } else {
        size_of_all(history.drop_last()) + history.last().1 as nat
    }
}

/// Sizes added up by name.
pub struct Tally {
    pub names: Vec<String>,
    pub totals: Vec<Totals>,
    /// Where each name stands.
    pub positions: StringHashMap<usize>,
    /// All that was added, in order.
    pub history: Ghost<Seq<(Seq<char>, u64)>>,
}

/// What is under one name is no more than what is under all.
proof fn lemma_part(history: Seq<(Seq<char>, u64)>, name: Seq<char>)
    ensures
        count_of(history, name) <= history.len(),
        size_of(history, name) <= size_of_all(history),
    decreases history.len(),
{
    if history.len() > 0 {
        lemma_part(history.drop_last(), name);
    }
}

/// Whether the rows list each name of `history` once, with what is under it.
pub open spec fn sums_up(
    names: Seq<String>,
    totals: Seq<Totals>,
    history: Seq<(Seq<char>, u64)>,
) -> bool {
    &&& names.len() == totals.len()
    &&& forall|i: int, j: int|
        0 <= i < j < names.len() ==> (#[trigger] names[i])@ != (#[trigger] names[j])@
    &&& forall|i: int|
        #![trigger totals[i]]
        0 <= i < names.len() ==> totals[i].count > 0 && totals[i].count == count_of(
            history,
            names[i]@,
        ) && totals[i].total_size == size_of(history, names[i]@)
    &&& forall|name: Seq<char>|
        #[trigger] count_of(history, name) > 0 ==> exists|i: int|
            0 <= i < names.len() && (#[trigger] names[i])@ == name
}

impl Tally {
    pub open spec fn wf(self) -> bool {
        &&& self.names@.len() == self.totals@.len()
        &&& forall|i: int|
            0 <= i < self.names@.len() ==> self.positions@.contains_key(
                (#[trigger] self.names@[i])@,
            ) && self.positions@[self.names@[i]@] == i
        &&& forall|name: Seq<char>| #[trigger]
            self.positions@.contains_key(name) ==> self.positions@[name] < self.names@.len()
                && self.names@[self.positions@[name] as int]@ == name
        &&& forall|i: int|
            #![trigger self.totals@[i]]
            0 <= i < self.totals@.len() ==> self.totals@[i].count > 0 && self.totals@[i].count
                == count_of(self.history@, self.names@[i]@) && self.totals@[i].total_size
                == size_of(self.history@, self.names@[i]@)
        &&& forall|name: Seq<char>|
            !(#[trigger] self.positions@.contains_key(name)) ==> count_of(self.history@, name) == 0
                && size_of(self.history@, name) == 0
    }

    /// A tally without anything in it.
    pub fn new() -> (r: Tally)
        ensures
            r.wf(),
            r.history@ == Seq::<(Seq<char>, u64)>::empty(),
    {
        Tally {
            names: Vec::new(),
            totals: Vec::new(),
            positions: StringHashMap::new(),
            history: Ghost(Seq::empty()),
        }
    }

    /// Adds a size under a name.
    pub fn add(&mut self, name: String, size: u64)
        requires
            old(self).wf(),
            old(self).history@.len() < usize::MAX,
            size_of_all(old(self).history@) + size <= u64::MAX,
        ensures
            final(self).wf(),
            final(self).history@ == old(self).history@.push((name@, size)),
    {
        let ghost before = *self;
        let ghost now = self.history@.push((name@, size));
        proof {
            lemma_part(self.history@, name@);
            assert(now.drop_last() =~= self.history@);
        }
        let found = match self.positions.get(name.as_str()) {
            Some(i) => Some(*i),
            None => None,
        };
        match found {
            Some(i) => {
                let t = self.totals[i];
                assert(self.names@[i as int]@ == name@);
                assert(self.totals@[i as int].count == count_of(self.history@, name@));
                self.totals.set(
                    i,
                    Totals { count: t.count + 1, total_size: t.total_size + size },
                );
            },
            None => {
                let i: usize = self.names.len();
                self.positions.insert(name.clone(), i);
                self.totals.push(Totals { count: 1, total_size: size });
                self.names.push(name);
            },
        }
        self.history = Ghost(now);
        proof {
            assert forall|i: int|
                #![trigger self.totals@[i]]
                0 <= i < self.totals@.len() implies self.totals@[i].count > 0
                && self.totals@[i].count == count_of(now, self.names@[i]@)
                && self.totals@[i].total_size == size_of(now, self.names@[i]@) by {
                if i < before.names@.len() {
                    assert(before.totals@[i].count == count_of(before.history@, before.names@[i]@));
                    if self.names@[i]@ == name@ {
                        assert(before.positions@[before.names@[i]@] == i);
                    }
                } else {
                    assert(!before.positions@.contains_key(name@));
                }
            }
            assert forall|k: Seq<char>| !(#[trigger] self.positions@.contains_key(k)) implies count_of(
                now,
                k,
            ) == 0 && size_of(now, k) == 0 by {
                assert(!before.positions@.contains_key(k));
            }
            assert forall|i: int| 0 <= i < self.names@.len() implies self.positions@.contains_key(
                (#[trigger] self.names@[i])@,
            ) && self.positions@[self.names@[i]@] == i by {
                if i < before.names@.len() {
                    assert(before.positions@.contains_key(before.names@[i]@));
                }
            }
            assert forall|k: Seq<char>| #[trigger]
                self.positions@.contains_key(k) implies self.positions@[k] < self.names@.len()
                && self.names@[self.positions@[k] as int]@ == k by {
                if before.positions@.contains_key(k) {
                    assert(before.names@[before.positions@[k] as int]@ == k);
                }
            }
        }
    }

    /// The names, and what is under each.
    pub fn finish(self) -> (r: (Vec<String>, Vec<Totals>))
        requires
            self.wf(),
        ensures
            sums_up(r.0@, r.1@, self.history@),
    {
        proof {
            assert forall|name: Seq<char>|
                #[trigger] count_of(self.history@, name) > 0 implies exists|i: int|
                0 <= i < self.names@.len() && (#[trigger] self.names@[i])@ == name by {
                assert(self.positions@.contains_key(name));
                assert(self.names@[self.positions@[name] as int]@ == name);
            }
        }
        (self.names, self.totals)
    }
}

/// The counts of all rows together.
pub open spec fn counts_sum(totals: Seq<Totals>) -> nat
    decreases totals.len(),
{
    if totals.len() == 0 {
        0
    } else {
        counts_sum(totals.drop_last()) + totals.last().count as nat
    }
}

/// The sizes of all rows together.
pub open spec fn totals_sum(totals: Seq<Totals>) -> nat
    decreases totals.len(),
{
    if totals.len() == 0 {
        0
    } else {
        totals_sum(totals.drop_last()) + totals.last().total_size as nat
    }
}

/// What is in `history` under any of `names`.
spec fn found(names: Seq<String>, history: Seq<(Seq<char>, u64)>) -> (nat, nat)
    decreases names.len(),
{
    if names.len() == 0 {
        (0, 0)
    } else {
        let before = found(names.drop_last(), history);
        (
            before.0 + count_of(history, names.last()@),
            before.1 + size_of(history, names.last()@),
        )
    }
}

spec fn distinct(names: Seq<String>) -> bool {
    forall|i: int, j: int|
        0 <= i < j < names.len() ==> (#[trigger] names[i])@ != (#[trigger] names[j])@
}

spec fn lists(names: Seq<String>, name: Seq<char>) -> bool {
    exists|i: int| 0 <= i < names.len() && (#[trigger] names[i])@ == name
}

/// One more item is found once where its name is listed, and else not at all.
proof fn lemma_found_one_more(names: Seq<String>, history: Seq<(Seq<char>, u64)>)
    requires
        distinct(names),
        history.len() > 0,
    ensures
        ({
            let before = found(names, history.drop_last());
            found(names, history) == if lists(names, history.last().0) {
                (before.0 + 1, before.1 + history.last().1 as nat)
            } else {
                before
            }
        }),
    decreases names.len(),
{
    let name = history.last().0;
    if names.len() > 0 {
        let front = names.drop_last();
        assert(distinct(front));
        lemma_found_one_more(front, history);
        if names.last()@ == name {
            assert(names[names.len() - 1]@ == name);
            assert(!lists(front, name));
        } else if lists(names, name) {
            let i = choose|i: int| 0 <= i < names.len() && (#[trigger] names[i])@ == name;
            assert(front[i]@ == name);
        } else if lists(front, name) {
            let i = choose|i: int| 0 <= i < front.len() && (#[trigger] front[i])@ == name;
            assert(names[i]@ == name);
        }
    }
}

proof fn lemma_found_nothing(names: Seq<String>, history: Seq<(Seq<char>, u64)>)
    requires
        history.len() == 0,
    ensures
        found(names, history) == (0nat, 0nat),
    decreases names.len(),
{
    if names.len() > 0 {
        lemma_found_nothing(names.drop_last(), history);
    }
}

proof fn lemma_found_everything(names: Seq<String>, history: Seq<(Seq<char>, u64)>)
    requires
        distinct(names),
        forall|i: int| 0 <= i < history.len() ==> lists(names, (#[trigger] history[i]).0),
    ensures
        found(names, history) == (history.len(), size_of_all(history)),
    decreases history.len(),
{
    if history.len() == 0 {
        lemma_found_nothing(names, history);
    } else {
        lemma_found_one_more(names, history);
        assert(lists(names, history[history.len() - 1].0));
        let front = history.drop_last();
        assert forall|i: int| 0 <= i < front.len() implies lists(names, (#[trigger] front[i]).0) by {
            assert(front[i] == history[i]);
        }
        lemma_found_everything(names, front);
    }
}

proof fn lemma_rows_are_found(
    names: Seq<String>,
    totals: Seq<Totals>,
    history: Seq<(Seq<char>, u64)>,
)
    requires
        names.len() == totals.len(),
        forall|i: int|
            #![trigger totals[i]]
            0 <= i < names.len() ==> totals[i].count == count_of(history, names[i]@)
                && totals[i].total_size == size_of(history, names[i]@),
    ensures
        found(names, history) == (counts_sum(totals), totals_sum(totals)),
    decreases names.len(),
{
    if names.len() > 0 {
        let rest = totals.drop_last();
        assert forall|i: int|
            #![trigger rest[i]]
            0 <= i < names.drop_last().len() implies rest[i].count == count_of(
            history,
            names.drop_last()[i]@,
        ) && rest[i].total_size == size_of(history, names.drop_last()[i]@) by {
            assert(rest[i] == totals[i]);
        }
        lemma_rows_are_found(names.drop_last(), rest, history);
        assert(totals[totals.len() - 1] == totals.last());
    }
}

proof fn lemma_occurs(history: Seq<(Seq<char>, u64)>, i: int)
    requires
        0 <= i < history.len(),
    ensures
        count_of(history, history[i].0) > 0,
    decreases history.len(),
{
    if i < history.len() - 1 {
        lemma_occurs(history.drop_last(), i);
        assert(history.drop_last()[i] == history[i]);
    }
}

/// The rows together hold everything that was added, each item in one of them.
pub proof fn lemma_rows_hold_everything(
    names: Seq<String>,
    totals: Seq<Totals>,
    history: Seq<(Seq<char>, u64)>,
)
    requires
        sums_up(names, totals, history),
    ensures
        counts_sum(totals) == history.len(),
        totals_sum(totals) == size_of_all(history),
{
    assert forall|i: int| 0 <= i < history.len() implies lists(names, (#[trigger] history[i]).0) by {
        lemma_occurs(history, i);
    }
    lemma_found_everything(names, history);
    lemma_rows_are_found(names, totals, history);
}

/// What two lists hold under a name adds up, and one item counts under its own name alone.
pub proof fn lemma_tallies_add_up(
    a: Seq<(Seq<char>, u64)>,
    b: Seq<(Seq<char>, u64)>,
    name: Seq<char>,
)
    ensures
        count_of(a + b, name) == count_of(a, name) + count_of(b, name),
        size_of(a + b, name) == size_of(a, name) + size_of(b, name),
        a.len() == 1 ==> count_of(a, name) == if a[0].0 == name {
            1nat
        } else {
            0nat
        },
        a.len() == 1 ==> size_of(a, name) == if a[0].0 == name {
            a[0].1 as nat
        } else {
            0nat
        },
    decreases b.len(),
{
    reveal_with_fuel(count_of, 2);
    reveal_with_fuel(size_of, 2);
    if b.len() == 0 {
        assert(a + b =~= a);
    } else {
        lemma_tallies_add_up(a, b.drop_last(), name);
        assert((a + b).drop_last() =~= a + b.drop_last());
    }
    if a.len() == 1 {
        assert(a.drop_last() =~= Seq::<(Seq<char>, u64)>::empty());
    }
}

} // verus!
