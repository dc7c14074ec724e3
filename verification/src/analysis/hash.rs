use std::collections::HashMap;
use vstd::bytes::u64_to_le_bytes;
use vstd::hash_map::StringHashMap;
use vstd::prelude::*;
use vstd::string::*;

use super::error_strategy::AnalysisErrorStrategy;
use super::report::{DuplicateGroup, Entry};
use super::walk;
use crate::checksum;
use crate::checksum::content_hash;
use crate::error::Error;
use crate::paths::FilePath;

verus! {

/// How many of `entries` have that size.
pub open spec fn sized(entries: Seq<Entry>, size: u64) -> nat {
    entries.filter(|e: Entry| e.size == size).len()
}

/// The entries whose content has to be looked at: those that are not empty and share their
/// size with another one.
pub open spec fn to_hash_of(entries: Seq<Entry>) -> Seq<Entry> {
    entries.filter(|e: Entry| e.size != 0 && sized(entries, e.size) > 1)
}

/// The empty files, where there is more than one.
pub open spec fn empty_of(entries: Seq<Entry>) -> Seq<Entry> {
    entries.filter(|e: Entry| e.size == 0 && sized(entries, 0) > 1)
}

/// How often each size occurs.
fn count_sizes(entries: &Vec<Entry>) -> (r: HashMap<u64, usize>)
    ensures
        forall|size: u64| #[trigger]
            r@.contains_key(size) ==> r@[size] == sized(entries@, size),
        forall|i: int| 0 <= i < entries@.len() ==> r@.contains_key((#[trigger] entries@[i]).size),
{
    broadcast use vstd::std_specs::hash::group_hash_axioms;

    let mut counts: HashMap<u64, usize> = HashMap::new();
    let mut i: usize = 0;
    proof {
        reveal(Seq::filter);
        assert(entries@.take(0) =~= Seq::<Entry>::empty());
    }
    while i < entries.len()
        invariant
            i <= entries@.len(),
            forall|size: u64| #[trigger]
                counts@.contains_key(size) ==> counts@[size] == sized(
                    entries@.take(i as int),
                    size,
                ),
            forall|size: u64|
                !(#[trigger] counts@.contains_key(size)) ==> sized(entries@.take(i as int), size)
                    == 0,
            forall|j: int| 0 <= j < i ==> counts@.contains_key((#[trigger] entries@[j]).size),
        decreases entries@.len() - i,
    {
        let size: u64 = entries[i].size;
        let ghost before = counts@;
        proof {
            reveal(Seq::filter);
            assert(entries@.take(i + 1).drop_last() =~= entries@.take(i as int));
            assert(entries@.take(i + 1).last() == entries@[i as int]);
            entries@.take(i as int).lemma_filter_len(|e: Entry| e.size == size);
        }
        let count: usize = match counts.get(&size) {
            Some(count) => *count,
            None => 0,
        };
        assert(count == sized(entries@.take(i as int), size));
        assert(entries@.len() == entries.len());
        counts.insert(size, count + 1);
        proof {
            assert forall|s: u64| #[trigger] counts@.contains_key(s) implies counts@[s] == sized(
                entries@.take(i + 1),
                s,
            ) by {
                if s != size {
                    assert(before.contains_key(s));
                }
            }
            assert forall|s: u64| !(#[trigger] counts@.contains_key(s)) implies sized(
                entries@.take(i + 1),
                s,
            ) == 0 by {
                assert(!before.contains_key(s));
            }
        }
        i = i + 1;
    }
    assert(entries@.take(entries@.len() as int) =~= entries@);
    counts
}

/// Which files a search for duplicates looks at.
#[derive(Debug)]
pub struct HashPlan {
    /// Empty files, which are all alike.
    pub empty: Vec<Entry>,
    /// Files whose content has to be hashed.
    pub to_hash: Vec<Entry>,
}

/// Sorts out what a search for duplicates has to look at. A file whose size no other file
/// has is no duplicate, and empty files are duplicates of one another: neither is read.
pub fn plan_hashing(candidates: Vec<Entry>) -> (r: HashPlan)
    ensures
        r.empty@ == empty_of(candidates@),
        r.to_hash@ == to_hash_of(candidates@),
{
    broadcast use vstd::std_specs::hash::group_hash_axioms;

    let counts = count_sizes(&candidates);
    let mut empty: Vec<Entry> = Vec::new();
    let mut to_hash: Vec<Entry> = Vec::new();
    let ghost all = candidates@;
    let ghost is_empty = |e: Entry| e.size == 0 && sized(all, 0) > 1;
    let ghost is_read = |e: Entry| e.size != 0 && sized(all, e.size) > 1;
    proof {
        reveal(Seq::filter);
        assert(all.take(0) =~= Seq::<Entry>::empty());
    }
    for entry in it: candidates
        invariant
            it.seq() == all,
            is_empty == (|e: Entry| e.size == 0 && sized(all, 0) > 1),
            is_read == (|e: Entry| e.size != 0 && sized(all, e.size) > 1),
            forall|size: u64| #[trigger]
                counts@.contains_key(size) ==> counts@[size] == sized(all, size),
            forall|i: int| 0 <= i < all.len() ==> counts@.contains_key((#[trigger] all[i]).size),
            empty@ == all.take(it.index()).filter(is_empty),
            to_hash@ == all.take(it.index()).filter(is_read),
    {
        proof {
            reveal(Seq::filter);
            let i = it.index();
            assert(all[i] == entry);
            assert(all.take(i + 1).drop_last() =~= all.take(i));
            assert(all.take(i + 1).last() == entry);
        }
        let count: usize = match counts.get(&entry.size) {
            Some(count) => *count,
            None => 0,
        };
        if count > 1 {
            if entry.size == 0 {
                empty.push(entry);
            } else {
                to_hash.push(entry);
            }
        }
    }
    assert(all.take(all.len() as int) =~= all);
    HashPlan { empty, to_hash }
}

/// The files among `history` that have the size and the hash.
pub open spec fn members_of(history: Seq<(Entry, Seq<u8>)>, key: (u64, Seq<u8>)) -> Seq<Entry>
    decreases history.len(),
{
    if history.len() == 0 {
        Seq::empty()
    } else {
        let before = members_of(history.drop_last(), key);
        if key_of(history.last()) == key {
            before.push(history.last().0)
        } else {
            before
        }
    }
}

/// Size and hash of a file.
pub open spec fn key_of(item: (Entry, Seq<u8>)) -> (u64, Seq<u8>) {
    (item.0.size, item.1)
}

/// The sizes and hashes that occur in `history`, each once, in the order they first came.
pub open spec fn keys_of(history: Seq<(Entry, Seq<u8>)>) -> Seq<(u64, Seq<u8>)>
    decreases history.len(),
{
    if history.len() == 0 {
        Seq::empty()
    } else {
        let before = keys_of(history.drop_last());
        if before.contains(key_of(history.last())) {
            before
        } else {
            before.push(key_of(history.last()))
        }
    }
}

/// The files of `history`.
pub open spec fn entries_of(history: Seq<(Entry, Seq<u8>)>) -> Seq<Entry> {
    history.map_values(|item: (Entry, Seq<u8>)| item.0)
}

proof fn lemma_keys(history: Seq<(Entry, Seq<u8>)>)
    ensures
        forall|i: int, j: int|
            0 <= i < j < keys_of(history).len() ==> #[trigger] keys_of(history)[i]
                != #[trigger] keys_of(history)[j],
        forall|i: int|
            0 <= i < history.len() ==> keys_of(history).contains(key_of(#[trigger] history[i])),
        forall|k: (u64, Seq<u8>)|
            !keys_of(history).contains(k) ==> (#[trigger] members_of(history, k)).len() == 0,
    decreases history.len(),
{
    if history.len() > 0 {
        let front = history.drop_last();
        lemma_keys(front);
        let before = keys_of(front);
        let now = keys_of(history);
        let last = key_of(history.last());
        assert forall|i: int| 0 <= i < history.len() implies now.contains(
            key_of(#[trigger] history[i]),
        ) by {
            if i < front.len() {
                assert(front[i] == history[i]);
                let k = choose|k: int| 0 <= k < before.len() && before[k] == key_of(front[i]);
                assert(now[k] == before[k]);
            } else if !before.contains(last) {
                assert(now[now.len() - 1] == last);
            }
        }
        assert forall|k: (u64, Seq<u8>)| !now.contains(k) implies (#[trigger] members_of(
            history,
            k,
        )).len() == 0 by {
            if before.contains(k) {
                let i = choose|i: int| 0 <= i < before.len() && before[i] == k;
                assert(now[i] == k);
            }
            assert(k != last) by {
                if !before.contains(last) {
                    assert(now[now.len() - 1] == last);
                }
            }
            assert(!before.contains(k));
            assert(members_of(front, k).len() == 0);
        }
    }
}

/// What a size and a hash are looked up by.
spec fn label(key: (u64, Seq<u8>)) -> Seq<char> {
    (vstd::bytes::spec_u64_to_le_bytes(key.0) + key.1).map_values(|b: u8| b as char)
}

proof fn lemma_label_injective(a: (u64, Seq<u8>), b: (u64, Seq<u8>))
    requires
        label(a) == label(b),
    ensures
        a == b,
{
    vstd::bytes::lemma_auto_spec_u64_to_from_le_bytes();
    let x = vstd::bytes::spec_u64_to_le_bytes(a.0);
    let y = vstd::bytes::spec_u64_to_le_bytes(b.0);
    let p = x + a.1;
    let q = y + b.1;
    assert(p.len() == label(a).len());
    assert(q.len() == label(b).len());
    assert forall|i: int| 0 <= i < p.len() implies p[i] == q[i] by {
        assert(label(a)[i] == p[i] as char);
        assert(label(b)[i] == q[i] as char);
    }
    assert(x =~= y) by {
        assert forall|i: int| 0 <= i < 8 implies x[i] == y[i] by {
            assert(p[i] == x[i]);
            assert(q[i] == y[i]);
        }
    }
    assert(a.1 =~= b.1) by {
        assert forall|i: int| 0 <= i < a.1.len() implies a.1[i] == b.1[i] by {
            assert(p[i + 8] == a.1[i]);
            assert(q[i + 8] == b.1[i]);
        }
    }
}

/// The text that a size and a hash are looked up by.
fn to_label(size: u64, hash: &[u8; 32]) -> (r: String)
    ensures
        r@ == label((size, hash@)),
{
    let bytes = u64_to_le_bytes(size);
    let mut out: String = String::new();
    let ghost all = bytes@ + hash@;
    let mut i: usize = 0;
    while i < 8
        invariant
            i <= 8,
            bytes@.len() == 8,
            all == bytes@ + hash@,
            out@ == all.take(i as int).map_values(|b: u8| b as char),
        decreases 8 - i,
    {
        out.push(bytes[i] as char);
        assert(all[i as int] == bytes@[i as int]);
        assert(out@ =~= all.take(i + 1).map_values(|b: u8| b as char));
        i = i + 1;
    }
    let mut j: usize = 0;
    while j < 32
        invariant
            j <= 32,
            bytes@.len() == 8,
            all == bytes@ + hash@,
            out@ == all.take(8 + j).map_values(|b: u8| b as char),
        decreases 32 - j,
    {
        out.push(hash[j] as char);
        assert(all[8 + j] == hash@[j as int]);
        assert(out@ =~= all.take(8 + j + 1).map_values(|b: u8| b as char));
        j = j + 1;
    }
    assert(all.take(40) =~= all);
    out
}

/// Files sorted by size and hash.
pub struct HashGroups {
    pub keys: Vec<(u64, [u8; 32])>,
    pub members: Vec<Vec<Entry>>,
    /// Where each size and hash stands.
    pub positions: StringHashMap<usize>,
    /// All files that were added, with their hashes, in order.
    pub history: Ghost<Seq<(Entry, Seq<u8>)>>,
}

impl HashGroups {
    pub closed spec fn wf(self) -> bool {
        let keys = keys_of(self.history@);
        &&& self.keys@.len() == keys.len()
        &&& self.members@.len() == keys.len()
        &&& forall|i: int|
            0 <= i < keys.len() ==> (#[trigger] self.keys@[i]).0 == keys[i].0 && self.keys@[i].1@
                == keys[i].1
        &&& forall|i: int|
            0 <= i < keys.len() ==> (#[trigger] self.members@[i])@ == members_of(
                self.history@,
                keys[i],
            )
        &&& forall|i: int|
            0 <= i < keys.len() ==> self.positions@.contains_key(label(#[trigger] keys[i]))
                && self.positions@[label(keys[i])] == i
        &&& forall|text: Seq<char>| #[trigger]
            self.positions@.contains_key(text) ==> self.positions@[text] < keys.len() && label(
                keys[self.positions@[text] as int],
            ) == text
    }

    /// Groups without any file.
    pub fn new() -> (r: HashGroups)
        ensures
            r.wf(),
            r.history@ == Seq::<(Entry, Seq<u8>)>::empty(),
    {
        HashGroups {
            keys: Vec::new(),
            members: Vec::new(),
            positions: StringHashMap::new(),
            history: Ghost(Seq::empty()),
        }
    }

    /// Adds a file with that hash.
    pub fn add(&mut self, entry: Entry, hash: [u8; 32])
        requires
            old(self).wf(),
        ensures
            final(self).wf(),
            final(self).history@ == old(self).history@.push((entry, hash@)),
    {
        let ghost before = *self;
        let ghost old_keys = keys_of(self.history@);
        let ghost now = self.history@.push((entry, hash@));
        let ghost key = (entry.size, hash@);
        proof {
            assert(now.drop_last() =~= self.history@);
            assert(key_of(now.last()) == key);
            lemma_keys(self.history@);
        }
        let text = to_label(entry.size, &hash);
        let found = match self.positions.get(text.as_str()) {
            Some(i) => Some(*i),
            None => None,
        };
        match found {
            Some(i) => {
                proof {
                    lemma_label_injective(old_keys[i as int], key);
                    assert(old_keys.contains(key));
                }
                self.members[i].push(entry);
                proof {
                    assert forall|j: int| 0 <= j < old_keys.len() implies (
                    #[trigger] self.members@[j])@ == members_of(now, old_keys[j]) by {
                        assert(before.members@[j]@ == members_of(before.history@, old_keys[j]));
                        if j != i {
                            assert(old_keys[j] != old_keys[i as int]);
                        }
                    }
                }
            },
            None => {
                proof {
                    if old_keys.contains(key) {
                        let j = choose|j: int| 0 <= j < old_keys.len() && old_keys[j] == key;
                        assert(self.positions@.contains_key(label(old_keys[j])));
                        assert(false);
                    }
                    assert(members_of(before.history@, key).len() == 0);
                }
                let i: usize = self.keys.len();
                let ghost first = entry;
                self.positions.insert(text, i);
                self.keys.push((entry.size, hash));
                let mut group: Vec<Entry> = Vec::new();
                group.push(entry);
                self.members.push(group);
                proof {
                    let keys = keys_of(now);
                    assert(keys == old_keys.push(key));
                    assert forall|j: int| 0 <= j < keys.len() implies (#[trigger] self.members@[j])@
                        == members_of(now, keys[j]) by {
                        if j < old_keys.len() {
                            assert(before.members@[j]@ == members_of(
                                before.history@,
                                old_keys[j],
                            ));
                            assert(old_keys[j] != key);
                        } else {
                            assert(self.members@[j]@ =~= seq![first]);
                            assert(members_of(now, key) =~= seq![first]);
                        }
                    }
                    assert forall|j: int| 0 <= j < keys.len() implies self.positions@.contains_key(
                        label(#[trigger] keys[j]),
                    ) && self.positions@[label(keys[j])] == j by {
                        if j < old_keys.len() {
                            assert(before.positions@.contains_key(label(old_keys[j])));
                        }
                    }
                    assert forall|t: Seq<char>| #[trigger]
                        self.positions@.contains_key(t) implies self.positions@[t] < keys.len()
                        && label(keys[self.positions@[t] as int]) == t by {
                        if before.positions@.contains_key(t) {
                            assert(label(old_keys[before.positions@[t] as int]) == t);
                        }
                    }
                }
            },
        }
        self.history = Ghost(now);
    }
}

/// Those of `keys` that more than one file has.
pub open spec fn shared(
    keys: Seq<(u64, Seq<u8>)>,
    history: Seq<(Entry, Seq<u8>)>,
) -> Seq<(u64, Seq<u8>)> {
    keys.filter(|k: (u64, Seq<u8>)| members_of(history, k).len() > 1)
}

/// What the files with one of `keys` take beyond one file for each.
pub open spec fn wasted(keys: Seq<(u64, Seq<u8>)>, history: Seq<(Entry, Seq<u8>)>) -> int
    decreases keys.len(),
{
    if keys.len() == 0 {
        0
    } else {
        let key = keys.last();
        wasted(keys.drop_last(), history) + key.0 * (members_of(history, key).len() - 1)
    }
}

/// What the files with one of `keys` take.
spec fn taken(keys: Seq<(u64, Seq<u8>)>, history: Seq<(Entry, Seq<u8>)>) -> int
    decreases keys.len(),
{
    if keys.len() == 0 {
        0
    } else {
        let key = keys.last();
        taken(keys.drop_last(), history) + key.0 * members_of(history, key).len()
    }
}

spec fn distinct(keys: Seq<(u64, Seq<u8>)>) -> bool {
    forall|i: int, j: int|
        0 <= i < j < keys.len() ==> #[trigger] keys[i] != #[trigger] keys[j]
}

proof fn lemma_taken_one_more(keys: Seq<(u64, Seq<u8>)>, history: Seq<(Entry, Seq<u8>)>)
    requires
        distinct(keys),
        history.len() > 0,
    ensures
        taken(keys, history) == taken(keys, history.drop_last()) + if keys.contains(
            key_of(history.last()),
        ) {
            history.last().0.size as int
        } else {
            0
        },
    decreases keys.len(),
{
    if keys.len() > 0 {
        let front = keys.drop_last();
        let last = keys.last();
        let new = key_of(history.last());
        assert(distinct(front));
        lemma_taken_one_more(front, history);
        let n = members_of(history.drop_last(), last).len() as int;
        let size = last.0 as int;
        if last == new {
            assert(keys[keys.len() - 1] == new);
            if front.contains(new) {
                let i = choose|i: int| 0 <= i < front.len() && front[i] == new;
                assert(keys[i] == keys[keys.len() - 1]);
            }
            assert(size * (n + 1) == size * n + size) by (nonlinear_arith);
            assert(members_of(history, last).len() == n + 1);
        } else {
            assert(members_of(history, last) == members_of(history.drop_last(), last));
            if keys.contains(new) {
                let i = choose|i: int| 0 <= i < keys.len() && keys[i] == new;
                assert(front[i] == new);
            }
            if front.contains(new) {
                let i = choose|i: int| 0 <= i < front.len() && front[i] == new;
                assert(keys[i] == new);
            }
        }
    }
}

proof fn lemma_taken_of_nothing(keys: Seq<(u64, Seq<u8>)>, history: Seq<(Entry, Seq<u8>)>)
    requires
        history.len() == 0,
    ensures
        taken(keys, history) == 0,
    decreases keys.len(),
{
    if keys.len() > 0 {
        lemma_taken_of_nothing(keys.drop_last(), history);
    }
}

/// All groups together take what all files take.
proof fn lemma_taken(keys: Seq<(u64, Seq<u8>)>, history: Seq<(Entry, Seq<u8>)>)
    requires
        distinct(keys),
        forall|i: int| 0 <= i < history.len() ==> keys.contains(key_of(#[trigger] history[i])),
    ensures
        taken(keys, history) == walk::sizes_sum(entries_of(history)),
    decreases history.len(),
{
    if history.len() == 0 {
        lemma_taken_of_nothing(keys, history);
        assert(entries_of(history) =~= Seq::<Entry>::empty());
    } else {
        let front = history.drop_last();
        assert forall|i: int| 0 <= i < front.len() implies keys.contains(
            key_of(#[trigger] front[i]),
        ) by {
            assert(front[i] == history[i]);
        }
        lemma_taken(keys, front);
        lemma_taken_one_more(keys, history);
        assert(keys.contains(key_of(history[history.len() - 1])));
        assert(entries_of(history).drop_last() =~= entries_of(front));
    }
}

/// What is wasted in a part of the groups is part of what all groups take.
proof fn lemma_wasted(keys: Seq<(u64, Seq<u8>)>, history: Seq<(Entry, Seq<u8>)>, count: int)
    requires
        0 <= count <= keys.len(),
    ensures
        0 <= wasted(shared(keys.take(count), history), history) <= taken(keys, history),
        0 <= taken(keys, history),
    decreases keys.len(),
{
    reveal(Seq::filter);
    if keys.len() > 0 {
        let front = keys.drop_last();
        let last = keys.last();
        let n = members_of(history, last).len() as int;
        let size = last.0 as int;
        assert(0 <= size * n) by (nonlinear_arith)
            requires
                0 <= size,
                0 <= n,
        ;
        if count < keys.len() {
            lemma_wasted(front, history, count);
            assert(front.take(count) =~= keys.take(count));
        } else {
            lemma_wasted(front, history, count - 1);
            assert(front.take(count - 1) =~= front);
            assert(keys.take(count) =~= keys);
            assert(shared(keys, history) == if n > 1 {
                shared(front, history).push(last)
            } else {
                shared(front, history)
            });
            if n > 1 {
                assert(shared(front, history).push(last).drop_last() =~= shared(front, history));
                assert(0 <= size * (n - 1) <= size * n) by (nonlinear_arith)
                    requires
                        0 <= size,
                        1 < n,
                ;
            }
        }
    } else {
        assert(keys.take(count) =~= keys);
    }
}

/// What a search for duplicates came to.
#[derive(Debug)]
pub struct HashOutcome {
    pub groups: Vec<DuplicateGroup>,
    pub groups_total: usize,
    pub bytes_wasted: u64,
    pub errors: Vec<(FilePath, Error)>,
    pub errors_total: usize,
}

/// The paths of `entries`.
pub open spec fn paths_of(entries: Seq<Entry>) -> Seq<FilePath> {
    entries.map_values(|e: Entry| e.path)
}

/// Whether `group` lists the files of `history` with that size and hash.
pub open spec fn is_group_of(
    group: DuplicateGroup,
    key: (u64, Seq<u8>),
    history: Seq<(Entry, Seq<u8>)>,
) -> bool {
    &&& group.size == key.0
    &&& group.hash@ == key.1
    &&& group.paths@ == paths_of(members_of(history, key))
}

/// Whether `outcome` reports the duplicates among `history`: the first `limit` groups one
/// by one, and all of them in its sums.
pub open spec fn reports_duplicates(
    outcome: HashOutcome,
    history: Seq<(Entry, Seq<u8>)>,
    limit: usize,
) -> bool {
    let duplicates = shared(keys_of(history), history);
    &&& outcome.groups_total == duplicates.len()
    &&& outcome.bytes_wasted == wasted(duplicates, history)
    &&& outcome.groups@.len() == if duplicates.len() < limit {
        duplicates.len()
    } else {
        limit as nat
    }
    &&& forall|i: int|
        0 <= i < outcome.groups@.len() ==> is_group_of(
            #[trigger] outcome.groups@[i],
            duplicates[i],
            history,
        )
}

fn clone_paths(entries: &Vec<Entry>) -> (r: Vec<FilePath>)
    ensures
        r@ == paths_of(entries@),
{
    let mut out: Vec<FilePath> = Vec::with_capacity(entries.len());
    let mut i: usize = 0;
    while i < entries.len()
        invariant
            i <= entries@.len(),
            out@ == paths_of(entries@.take(i as int)),
        decreases entries@.len() - i,
    {
        out.push(entries[i].path.clone());
        assert(out@ =~= paths_of(entries@.take(i + 1)));
        i = i + 1;
    }
    assert(entries@.take(entries@.len() as int) =~= entries@);
    out
}

impl HashGroups {
    /// The groups of more than one file.
    fn duplicates(
        &self,
        limit: usize,
        errors: Vec<(FilePath, Error)>,
        errors_total: usize,
    ) -> (r: HashOutcome)
        requires
            self.wf(),
            walk::sizes_sum(entries_of(self.history@)) <= u64::MAX,
        ensures
            reports_duplicates(r, self.history@, limit),
            r.errors == errors,
            r.errors_total == errors_total,
    {
        let ghost history = self.history@;
        let ghost keys = keys_of(history);
        let mut groups: Vec<DuplicateGroup> = Vec::new();
        let mut groups_total: usize = 0;
        let mut bytes_wasted: u64 = 0;
        let mut i: usize = 0;
        proof {
            lemma_keys(history);
            lemma_taken(keys, history);
            reveal(Seq::filter);
            assert(keys.take(0) =~= Seq::<(u64, Seq<u8>)>::empty());
        }
        while i < self.keys.len()
            invariant
                self.wf(),
                history == self.history@,
                keys == keys_of(history),
                taken(keys, history) <= u64::MAX,
                i <= keys.len() == self.keys@.len(),
                groups_total == shared(keys.take(i as int), history).len(),
                groups_total <= i,
                bytes_wasted == wasted(shared(keys.take(i as int), history), history),
                groups@.len() == if groups_total < limit {
                    groups_total
                } else {
                    limit
                },
                forall|j: int|
                    0 <= j < groups@.len() ==> is_group_of(
                        #[trigger] groups@[j],
                        shared(keys.take(i as int), history)[j],
                        history,
                    ),
            decreases keys.len() - i,
        {
            let ghost before = shared(keys.take(i as int), history);
            let ghost key = keys[i as int];
            proof {
                reveal(Seq::filter);
                assert(keys.take(i + 1).drop_last() =~= keys.take(i as int));
                assert(keys.take(i + 1).last() == key);
                assert(self.members@[i as int]@ == members_of(history, key));
                assert(self.keys@[i as int].0 == key.0);
                lemma_wasted(keys, history, i + 1);
                lemma_wasted(keys, history, i as int);
            }
            let count: usize = self.members[i].len();
            if count > 1 {
                let size: u64 = self.keys[i].0;
                proof {
                    assert(shared(keys.take(i + 1), history) == before.push(key));
                    assert(before.push(key).drop_last() =~= before);
                    assert(0 <= size * (count - 1)) by (nonlinear_arith)
                        requires
                            count > 1,
                    ;
                }
                groups_total = groups_total + 1;
                bytes_wasted = bytes_wasted + size * (count as u64 - 1);
                if groups.len() < limit {
                    groups.push(
                        DuplicateGroup {
                            hash: self.keys[i].1,
                            size,
                            paths: clone_paths(&self.members[i]),
                        },
                    );
                }
            }
            i = i + 1;
        }
        assert(keys.take(keys.len() as int) =~= keys);
        HashOutcome { groups, groups_total, bytes_wasted, errors, errors_total }
    }
}

/// A search for duplicates, as the hashes of its files come in.
pub struct DuplicateSearch {
    pub groups: HashGroups,
    pub strategy: AnalysisErrorStrategy,
    pub max_reported_groups: usize,
    pub max_reported_errors: usize,
    pub errors: Vec<(FilePath, Error)>,
    pub errors_total: usize,
}

/// `entries`, each with the hash of an empty content.
pub open spec fn as_empty(entries: Seq<Entry>) -> Seq<(Entry, Seq<u8>)> {
    entries.map_values(|e: Entry| (e, checksum::blake3_of(Seq::empty())))
}

impl DuplicateSearch {
    pub open spec fn wf(self) -> bool {
        &&& self.groups.wf()
        &&& self.errors@.len() == if self.errors_total < self.max_reported_errors {
            self.errors_total
        } else {
            self.max_reported_errors
        }
    }

    /// Whether both are bound to the same limits.
    pub open spec fn same_settings(self, other: DuplicateSearch) -> bool {
        &&& self.strategy == other.strategy
        &&& self.max_reported_groups == other.max_reported_groups
        &&& self.max_reported_errors == other.max_reported_errors
    }

    /// A search that knows of the empty files only. They are known to be alike without
    /// being read.
    pub fn new(
        empty: Vec<Entry>,
        strategy: AnalysisErrorStrategy,
        max_reported_groups: usize,
        max_reported_errors: usize,
    ) -> (r: DuplicateSearch)
        ensures
            r.wf(),
            r.groups.history@ == as_empty(empty@),
            r.strategy == strategy,
            r.max_reported_groups == max_reported_groups,
            r.max_reported_errors == max_reported_errors,
            r.errors_total == 0,
    {
        let nothing: Vec<u8> = Vec::new();
        let hash = content_hash(nothing.as_slice());
        assert(nothing@ =~= Seq::<u8>::empty());
        let mut groups = HashGroups::new();
        let ghost all = empty@;
        assert(groups.history@ =~= as_empty(all.take(0)));
        for entry in it: empty
            invariant
                it.seq() == all,
                hash@ == checksum::blake3_of(Seq::empty()),
                groups.wf(),
                groups.history@ == as_empty(all.take(it.index())),
        {
            groups.add(entry, hash);
            assert(groups.history@ =~= as_empty(all.take(it.index() + 1)));
        }
        assert(all.take(all.len() as int) =~= all);
        DuplicateSearch {
            groups,
            strategy,
            max_reported_groups,
            max_reported_errors,
            errors: Vec::new(),
            errors_total: 0,
        }
    }

    /// Whether `after` is the state behind the hash of `entry`, and `r` tells whether the
    /// search goes on.
    pub open spec fn takes_in(
        self,
        after: DuplicateSearch,
        cancelled: bool,
        entry: Entry,
        hash: Result<[u8; 32], Error>,
        r: Result<(), Error>,
    ) -> bool {
        if cancelled {
            r == Err::<(), Error>(Error::Cancelled) && after == self
        } else {
            match hash {
                Ok(hash) => {
                    &&& r is Ok
                    &&& after.groups.history@ == self.groups.history@.push((entry, hash@))
                    &&& after.errors == self.errors
                    &&& after.errors_total == self.errors_total
                },
                Err(error) => {
                    &&& after.groups == self.groups
                    &&& if self.strategy == AnalysisErrorStrategy::AbortOnError {
                        &&& r == Err::<(), Error>(error)
                        &&& after == self
                    } else {
                        &&& r is Ok
                        &&& after.errors_total == self.errors_total + 1
                        &&& after.errors@ == if self.errors_total < self.max_reported_errors {
                            self.errors@.push((entry.path, error))
                        } else {
                            self.errors@
                        }
                    }
                },
            }
        }
    }

    /// Takes in the hash of a file, or why it could not be had. A search that was cancelled
    /// is given up, whatever came in.
    pub fn record(&mut self, cancelled: bool, entry: Entry, hash: Result<[u8; 32], Error>) -> (r:
        Result<(), Error>)
        requires
            old(self).wf(),
            old(self).errors_total < usize::MAX,
        ensures
            final(self).wf(),
            final(self).same_settings(*old(self)),
            old(self).takes_in(*final(self), cancelled, entry, hash, r),
    {
        if cancelled {
            return Err(Error::Cancelled);
        }
        match hash {
            Ok(hash) => {
                self.groups.add(entry, hash);
                Ok(())
            },
            Err(error) => match self.strategy {
                AnalysisErrorStrategy::AbortOnError => Err(error),
                AnalysisErrorStrategy::ContinueAndCollect => {
                    self.errors_total = self.errors_total + 1;
                    if self.errors.len() < self.max_reported_errors {
                        self.errors.push((entry.path, error));
                    }
                    Ok(())
                },
            },
        }
    }

    /// The duplicates among all files whose hashes came in.
    pub fn finish(self) -> (r: HashOutcome)
        requires
            self.wf(),
            walk::sizes_sum(entries_of(self.groups.history@)) <= u64::MAX,
        ensures
            reports_duplicates(r, self.groups.history@, self.max_reported_groups),
            r.errors == self.errors,
            r.errors_total == self.errors_total,
    {
        self.groups.duplicates(self.max_reported_groups, self.errors, self.errors_total)
    }
}

/// A file that is neither empty nor alone with its size is hashed, and no other file is.
pub proof fn lemma_only_size_collisions_are_hashed(entries: Seq<Entry>, i: int, j: int)
    requires
        0 <= i < j < entries.len(),
        entries[i].size == entries[j].size,
        entries[i].size != 0,
    ensures
        to_hash_of(entries).contains(entries[i]),
        to_hash_of(entries).contains(entries[j]),
        forall|k: int|
            0 <= k < to_hash_of(entries).len() ==> (#[trigger] to_hash_of(entries)[k]).size != 0
                && sized(entries, to_hash_of(entries)[k].size) > 1,
{
    let size = entries[i].size;
    let same = |e: Entry| e.size == size;
    let read = |e: Entry| e.size != 0 && sized(entries, e.size) > 1;
    lemma_two_pass(entries, same, i, j);
    assert(sized(entries, size) > 1);
    entries.lemma_filter_contains(read, i);
    entries.lemma_filter_contains(read, j);
    assert forall|k: int| 0 <= k < to_hash_of(entries).len() implies (
    #[trigger] to_hash_of(entries)[k]).size != 0 && sized(entries, to_hash_of(entries)[k].size)
        > 1 by {
        entries.lemma_filter_pred(read, k);
    }
}

/// A filter that two items pass leaves two at least.
proof fn lemma_two_pass<A>(items: Seq<A>, pred: spec_fn(A) -> bool, i: int, j: int)
    requires
        0 <= i < j < items.len(),
        pred(items[i]),
        pred(items[j]),
    ensures
        items.filter(pred).len() >= 2,
    decreases items.len(),
{
    reveal(Seq::filter);
    let front = items.drop_last();
    if j < front.len() {
        lemma_two_pass(front, pred, i, j);
    } else {
        front.lemma_filter_contains(pred, i);
        assert(front[i] == items[i]);
        assert(front.filter(pred).len() > 0);
    }
}

proof fn lemma_member(history: Seq<(Entry, Seq<u8>)>, i: int)
    requires
        0 <= i < history.len(),
    ensures
        members_of(history, key_of(history[i])).contains(history[i].0),
    decreases history.len(),
{
    let key = key_of(history[i]);
    let front = history.drop_last();
    let now = members_of(history, key);
    if i < front.len() {
        lemma_member(front, i);
        assert(front[i] == history[i]);
        let before = members_of(front, key);
        let k = choose|k: int| 0 <= k < before.len() && before[k] == history[i].0;
        assert(now[k] == history[i].0);
    } else {
        assert(now[now.len() - 1] == history[i].0);
    }
}

proof fn lemma_two_members(history: Seq<(Entry, Seq<u8>)>, i: int, j: int)
    requires
        0 <= i < j < history.len(),
        key_of(history[i]) == key_of(history[j]),
    ensures
        members_of(history, key_of(history[i])).len() >= 2,
    decreases history.len(),
{
    let front = history.drop_last();
    if j < front.len() {
        assert(front[i] == history[i] && front[j] == history[j]);
        lemma_two_members(front, i, j);
    } else {
        assert(front[i] == history[i]);
        lemma_member(front, i);
        assert(members_of(front, key_of(history[i])).len() > 0);
    }
}

/// Two files of one size and hash are found to be duplicates, in one group.
pub proof fn lemma_equal_files_share_a_group(history: Seq<(Entry, Seq<u8>)>, i: int, j: int)
    requires
        0 <= i < j < history.len(),
        key_of(history[i]) == key_of(history[j]),
    ensures
        shared(keys_of(history), history).contains(key_of(history[i])),
        members_of(history, key_of(history[i])).contains(history[i].0),
        members_of(history, key_of(history[i])).contains(history[j].0),
{
    lemma_keys(history);
    lemma_two_members(history, i, j);
    lemma_member(history, i);
    lemma_member(history, j);
    let keys = keys_of(history);
    let key = key_of(history[i]);
    let k = choose|k: int| 0 <= k < keys.len() && keys[k] == key;
    keys.lemma_filter_contains(|q: (u64, Seq<u8>)| members_of(history, q).len() > 1, k);
}

/// All files of a group have its size and its hash.
pub proof fn lemma_group_is_uniform(
    history: Seq<(Entry, Seq<u8>)>,
    key: (u64, Seq<u8>),
    entry: Entry,
)
    requires
        members_of(history, key).contains(entry),
    ensures
        exists|i: int|
            0 <= i < history.len() && (#[trigger] history[i]).0 == entry && key_of(history[i])
                == key,
    decreases history.len(),
{
    let now = members_of(history, key);
    let k = choose|k: int| 0 <= k < now.len() && now[k] == entry;
    let front = history.drop_last();
    let before = members_of(front, key);
    if k < before.len() {
        assert(before[k] == entry);
        lemma_group_is_uniform(front, key, entry);
        let i = choose|i: int|
            0 <= i < front.len() && (#[trigger] front[i]).0 == entry && key_of(front[i]) == key;
        assert(history[i].0 == entry);
    } else {
        assert(history[history.len() - 1].0 == entry);
    }
}

/// The files among `candidates` that have the size and the hash, where `hash_of` gives the
/// hash of each file.
pub open spec fn class_of(
    candidates: Seq<Entry>,
    hash_of: spec_fn(Entry) -> Seq<u8>,
    key: (u64, Seq<u8>),
) -> Seq<Entry> {
    candidates.filter(|e: Entry| (e.size, hash_of(e)) == key)
}

/// What is left of a list holds what is left of its items.
proof fn lemma_filter_to_multiset(entries: Seq<Entry>, pred: spec_fn(Entry) -> bool)
    ensures
        entries.filter(pred).to_multiset() == entries.to_multiset().filter(pred),
    decreases entries.len(),
{
    broadcast use vstd::seq_lib::group_to_multiset_ensures;

    reveal(Seq::filter);
    if entries.len() == 0 {
        assert(entries.filter(pred).to_multiset() =~= entries.to_multiset().filter(pred));
    } else {
        let front = entries.drop_last();
        lemma_filter_to_multiset(front, pred);
        assert(entries =~= front.push(entries.last()));
        assert(entries.filter(pred).to_multiset() =~= entries.to_multiset().filter(pred));
    }
}

proof fn lemma_members_are_filtered(
    history: Seq<(Entry, Seq<u8>)>,
    hash_of: spec_fn(Entry) -> Seq<u8>,
    key: (u64, Seq<u8>),
)
    requires
        forall|i: int| 0 <= i < history.len() ==> (#[trigger] history[i]).1 == hash_of(history[i].0),
    ensures
        members_of(history, key) == class_of(entries_of(history), hash_of, key),
    decreases history.len(),
{
    reveal(Seq::filter);
    if history.len() == 0 {
        assert(members_of(history, key) =~= class_of(entries_of(history), hash_of, key));
    } else {
        let front = history.drop_last();
        assert forall|i: int| 0 <= i < front.len() implies (#[trigger] front[i]).1 == hash_of(
            front[i].0,
        ) by {
            assert(front[i] == history[i]);
        }
        lemma_members_are_filtered(front, hash_of, key);
        assert(entries_of(history).drop_last() =~= entries_of(front));
        assert(history[history.len() - 1].1 == hash_of(history.last().0));
    }
}

/// From candidates to groups: where the empty files and all files that have to be read came
/// in, in any order and each with its hash, the groups are exactly the classes of two or
/// more candidates of one size and hash, and each lists its class.
pub proof fn lemma_groups_are_the_classes(
    candidates: Seq<Entry>,
    history: Seq<(Entry, Seq<u8>)>,
    hash_of: spec_fn(Entry) -> Seq<u8>,
    key: (u64, Seq<u8>),
)
    requires
        forall|i: int| 0 <= i < history.len() ==> (#[trigger] history[i]).1 == hash_of(history[i].0),
        entries_of(history).to_multiset() == empty_of(candidates).to_multiset().add(
            to_hash_of(candidates).to_multiset(),
        ),
    ensures
        shared(keys_of(history), history).contains(key) <==> class_of(
            candidates,
            hash_of,
            key,
        ).len() >= 2,
        class_of(candidates, hash_of, key).len() >= 2 ==> members_of(history, key).to_multiset()
            == class_of(candidates, hash_of, key).to_multiset(),
{
    broadcast use vstd::seq_lib::group_to_multiset_ensures;

    let all = candidates.to_multiset();
    let wanted = |e: Entry| (e.size, hash_of(e)) == key;
    let same_size = |e: Entry| e.size == key.0;
    let is_empty = |e: Entry| e.size == 0 && sized(candidates, 0) > 1;
    let is_read = |e: Entry| e.size != 0 && sized(candidates, e.size) > 1;
    let class = class_of(candidates, hash_of, key);
    let members = members_of(history, key);
    lemma_members_are_filtered(history, hash_of, key);
    lemma_filter_to_multiset(entries_of(history), wanted);
    lemma_filter_to_multiset(candidates, wanted);
    lemma_filter_to_multiset(candidates, same_size);
    lemma_filter_to_multiset(candidates, is_empty);
    lemma_filter_to_multiset(candidates, is_read);
    let inside = all.filter(wanted);
    let found = members.to_multiset();
    assert(forall|e: Entry| #[trigger] found.count(e) <= inside.count(e));
    assert(found.add(inside.sub(found)) =~= inside);
    assert(found.len() + inside.sub(found).len() == inside.len());
    if class.len() >= 2 {
        let sized_alike = all.filter(same_size);
        assert(inside.add(sized_alike.sub(inside)) =~= sized_alike);
        assert(inside.len() + sized_alike.sub(inside).len() == sized_alike.len());
        assert(sized(candidates, key.0) >= 2);
        assert(found =~= inside);
    }
    lemma_keys(history);
    let keys = keys_of(history);
    let is_shared = |k: (u64, Seq<u8>)| members_of(history, k).len() > 1;
    if members.len() > 1 {
        let k = choose|k: int| 0 <= k < keys.len() && keys[k] == key;
        keys.lemma_filter_contains(is_shared, k);
    }
    if shared(keys, history).contains(key) {
        let k = choose|k: int|
            0 <= k < shared(keys, history).len() && shared(keys, history)[k] == key;
        keys.lemma_filter_pred(is_shared, k);
    }
}

/// What comes in of the empty files and of the files that were read, one after the other, is
/// what the groups are made of.
pub proof fn lemma_all_candidates_come_in(
    candidates: Seq<Entry>,
    hashed: Seq<(Entry, Seq<u8>)>,
    hash_of: spec_fn(Entry) -> Seq<u8>,
)
    requires
        forall|e: Entry| candidates.contains(e) && e.size == 0 ==> #[trigger] hash_of(e)
            == checksum::blake3_of(Seq::empty()),
        forall|i: int| 0 <= i < hashed.len() ==> (#[trigger] hashed[i]).1 == hash_of(hashed[i].0),
        entries_of(hashed).to_multiset() == to_hash_of(candidates).to_multiset(),
    ensures
        ({
            let history = as_empty(empty_of(candidates)) + hashed;
            &&& forall|i: int|
                0 <= i < history.len() ==> (#[trigger] history[i]).1 == hash_of(history[i].0)
            &&& entries_of(history).to_multiset() == empty_of(candidates).to_multiset().add(
                to_hash_of(candidates).to_multiset(),
            )
        }),
{
    let empty = empty_of(candidates);
    let is_empty = |e: Entry| e.size == 0 && sized(candidates, 0) > 1;
    let history = as_empty(empty) + hashed;
    assert(entries_of(history) =~= empty + entries_of(hashed));
    vstd::seq_lib::lemma_multiset_commutative(empty, entries_of(hashed));
    assert forall|i: int| 0 <= i < history.len() implies (#[trigger] history[i]).1 == hash_of(
        history[i].0,
    ) by {
        if i < empty.len() {
            candidates.lemma_filter_pred(is_empty, i);
            candidates.lemma_filter_contains_rev(is_empty, empty[i]);
            assert(history[i].0 == empty[i]);
        } else {
            assert(history[i] == hashed[i - empty.len()]);
        }
    }
}

/// What duplicates waste adds up over the groups, and a group wastes all of its files but one.
pub proof fn lemma_waste_is_all_but_one_of_each_group(
    a: Seq<(u64, Seq<u8>)>,
    b: Seq<(u64, Seq<u8>)>,
    history: Seq<(Entry, Seq<u8>)>,
)
    ensures
        wasted(a + b, history) == wasted(a, history) + wasted(b, history),
        a.len() == 1 ==> wasted(a, history) + a[0].0 == a[0].0 * members_of(history, a[0]).len(),
        a.len() == 0 ==> wasted(a, history) == 0,
    decreases b.len(),
{
    reveal_with_fuel(wasted, 2);
    if b.len() == 0 {
        assert(a + b =~= a);
    } else {
        lemma_waste_is_all_but_one_of_each_group(a, b.drop_last(), history);
        assert((a + b).drop_last() =~= a + b.drop_last());
    }
    if a.len() == 1 {
        assert(a.drop_last() =~= Seq::<(u64, Seq<u8>)>::empty());
        let size = a[0].0 as int;
        let count = members_of(history, a[0]).len() as int;
        assert(size * (count - 1) + size == size * count) by (nonlinear_arith);
    }
}

/// Every group that is listed holds two files at least, each of which has the size and the
/// hash that the group states.
pub proof fn lemma_listed_groups_are_duplicates(
    outcome: HashOutcome,
    history: Seq<(Entry, Seq<u8>)>,
    limit: usize,
    i: int,
)
    requires
        reports_duplicates(outcome, history, limit),
        0 <= i < outcome.groups@.len(),
    ensures
        outcome.groups@[i].paths@.len() >= 2,
        outcome.groups@.len() <= limit,
        outcome.groups@.len() <= outcome.groups_total,
        forall|k: int|
            0 <= k < outcome.groups@[i].paths@.len() ==> exists|h: int|
                0 <= h < history.len() && (#[trigger] history[h]).0.path == (
                #[trigger] outcome.groups@[i].paths@[k]) && history[h].0.size
                    == outcome.groups@[i].size && history[h].1 == outcome.groups@[i].hash@,
{
    let keys = keys_of(history);
    let duplicates = shared(keys, history);
    let pred = |k: (u64, Seq<u8>)| members_of(history, k).len() > 1;
    keys.lemma_filter_pred(pred, i);
    let group = outcome.groups@[i];
    let key = duplicates[i];
    let members = members_of(history, key);
    assert(is_group_of(group, key, history));
    assert forall|k: int| 0 <= k < group.paths@.len() implies exists|h: int|
        0 <= h < history.len() && (#[trigger] history[h]).0.path == (#[trigger] group.paths@[k])
            && history[h].0.size == group.size && history[h].1 == group.hash@ by {
        assert(members.contains(members[k]));
        lemma_group_is_uniform(history, key, members[k]);
        let h = choose|h: int|
            0 <= h < history.len() && (#[trigger] history[h]).0 == members[k] && key_of(history[h])
                == key;
        assert(history[h].0.path == group.paths@[k]);
    }
}

/// A hash is taken in with its own file, a failure is counted or ends the search with its own
/// error, and a cancelled search takes in nothing. Failures are listed up to the limit and
/// counted beyond it.
pub proof fn lemma_hash_is_taken_in_or_told(
    before: DuplicateSearch,
    after: DuplicateSearch,
    cancelled: bool,
    entry: Entry,
    hash: Result<[u8; 32], Error>,
    r: Result<(), Error>,
)
    requires
        before.takes_in(after, cancelled, entry, hash, r),
    ensures
        r is Err <==> cancelled || (hash is Err && before.strategy
            == AnalysisErrorStrategy::AbortOnError),
        r is Err ==> after == before && r->Err_0 == if cancelled {
            Error::Cancelled
        } else {
            hash->Err_0
        },
        r is Ok && hash is Ok ==> after.groups.history@.len() == before.groups.history@.len() + 1
            && after.groups.history@.last() == (entry, hash->Ok_0@) && after.errors_total
            == before.errors_total,
        r is Ok && hash is Err ==> after.groups.history@ == before.groups.history@
            && after.errors_total - before.errors_total == 1,
        r is Ok && hash is Err && before.errors_total < before.max_reported_errors
            ==> after.errors@.last() == (entry.path, hash->Err_0) && after.errors@.len()
            == before.errors@.len() + 1,
        before.errors_total >= before.max_reported_errors ==> after.errors@ == before.errors@,
{
}

/// What a search was asked for stays as it was, whatever it comes to.
pub proof fn lemma_settings_stay(before: DuplicateSearch, after: DuplicateSearch)
    requires
        after.same_settings(before),
    ensures
        after.strategy == before.strategy,
        after.max_reported_groups == before.max_reported_groups,
        after.max_reported_errors == before.max_reported_errors,
{
}

} // verus!
