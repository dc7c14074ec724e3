use vstd::hash_map::StringHashMap;
use vstd::prelude::*;

use crate::checksum::same_hash;
use crate::error::Error;
use crate::paths;
use crate::paths::{normalize_for_comparison, FilePath};
use crate::profiler::{Entry, Span, Timestamp, Workload};

verus! {

/// How two files are compared.
#[derive(Debug, Clone, Copy, PartialEq, Eq, Structural)]
pub enum DiffStrategy {
    SizeAndModifiedTime,
    Checksum,
}

impl Default for DiffStrategy {
    fn default() -> (r: Self)
        ensures
            r == DiffStrategy::SizeAndModifiedTime,
    {
        DiffStrategy::SizeAndModifiedTime
    }
}

/// What a one-way sync has to do: files to be copied, and files that the source does not
/// have.
#[derive(Debug)]
pub struct SyncPlan {
    pub to_copy: Vec<Entry>,
    pub to_delete: Vec<Entry>,
}

/// What entries of both sides are matched by: the relative path in NFC form.
pub open spec fn key(entry: Entry) -> Seq<char> {
    paths::render(paths::normalized(entry.relative_path@))
}

/// Whether the entry at `i` has the key.
pub open spec fn has_key(entries: Seq<Entry>, i: int, k: Seq<char>) -> bool {
    0 <= i < entries.len() && key(entries[i]) == k
}

/// Whether the entry at `i` is the last one with the key.
pub open spec fn is_last_with(entries: Seq<Entry>, i: int, k: Seq<char>) -> bool {
    has_key(entries, i, k) && forall|j: int| i < j < entries.len() ==> !has_key(entries, j, k)
}

/// Whether none of the first `count` entries has the key.
pub open spec fn absent(entries: Seq<Entry>, count: int, k: Seq<char>) -> bool {
    forall|j: int| 0 <= j < count ==> !has_key(entries, j, k)
}

/// Which entry of the destination stands for that of the source, for each of these, and
/// which entries of the destination stand for none.
#[derive(Debug)]
pub struct Pairing {
    pub partners: Vec<Option<usize>>,
    pub orphans: Vec<usize>,
}

/// Whether `partner` is what the source entry at `i` is compared with: the last entry of
/// the destination with the same key, unless an earlier source entry has taken it.
pub open spec fn is_partner(
    source: Seq<Entry>,
    dest: Seq<Entry>,
    i: int,
    partner: Option<usize>,
) -> bool {
    let k = key(source[i]);
    match partner {
        Some(d) => absent(source, i, k) && is_last_with(dest, d as int, k),
        None => !absent(source, i, k) || absent(dest, dest.len() as int, k),
    }
}

/// Whether the destination entry at `d` is an orphan: no source entry has its key, and it
/// is the last one that has it.
pub open spec fn is_orphan(source: Seq<Entry>, dest: Seq<Entry>, d: int) -> bool {
    is_last_with(dest, d, key(dest[d])) && absent(source, source.len() as int, key(dest[d]))
}

/// The positions below `count` that are orphans, in order.
pub open spec fn orphans_of(source: Seq<Entry>, dest: Seq<Entry>, count: int) -> Seq<usize>
    decreases count,
{
    if count <= 0 {
        Seq::empty()
    } else {
        let before = orphans_of(source, dest, count - 1);
        if is_orphan(source, dest, count - 1) {
            before.push((count - 1) as usize)
        } else {
            before
        }
    }
}

impl Pairing {
    /// Whether this pairs `source` with `dest`.
    pub open spec fn pairs(self, source: Seq<Entry>, dest: Seq<Entry>) -> bool {
        &&& self.partners@.len() == source.len()
        &&& forall|i: int|
            0 <= i < source.len() ==> is_partner(source, dest, i, #[trigger] self.partners@[i])
        &&& self.orphans@ == orphans_of(source, dest, dest.len() as int)
    }
}

/// The keys of `entries`.
fn keys_of(entries: &Vec<Entry>) -> (r: Vec<String>)
    ensures
        r@.len() == entries@.len(),
        forall|i: int| 0 <= i < r@.len() ==> (#[trigger] r@[i])@ == key(entries@[i]),
{
    let mut keys: Vec<String> = Vec::with_capacity(entries.len());
    let mut i: usize = 0;
    while i < entries.len()
        invariant
            i <= entries@.len(),
            keys@.len() == i,
            forall|j: int| 0 <= j < i ==> (#[trigger] keys@[j])@ == key(entries@[j]),
        decreases entries@.len() - i,
    {
        keys.push(normalize_for_comparison(&entries[i].relative_path).text);
        i = i + 1;
    }
    keys
}

/// Whether `map` gives the last position of every key of `dest` that none of the first
/// `count` source entries has.
spec fn indexes(
    map: Map<Seq<char>, usize>,
    source: Seq<Entry>,
    count: int,
    dest: Seq<Entry>,
    upto: int,
) -> bool {
    let seen = dest.take(upto);
    &&& forall|k: Seq<char>| #[trigger]
        map.contains_key(k) ==> is_last_with(seen, map[k] as int, k) && absent(source, count, k)
    &&& forall|k: Seq<char>|
        !(#[trigger] map.contains_key(k)) ==> absent(seen, upto, k) || !absent(source, count, k)
}

/// Pairs the entries of both sides by key. Names that two file systems keep in different
/// Unicode forms are one name.
pub fn pair_entries(source: &Vec<Entry>, dest: &Vec<Entry>) -> (r: Pairing)
    ensures
        r.pairs(source@, dest@),
{
    let source_keys = keys_of(source);
    let dest_keys = keys_of(dest);
    let mut index: StringHashMap<usize> = StringHashMap::new();
    let mut d: usize = 0;
    while d < dest.len()
        invariant
            d <= dest@.len(),
            dest_keys@.len() == dest@.len(),
            forall|j: int|
                0 <= j < dest@.len() ==> (#[trigger] dest_keys@[j])@ == key(dest@[j]),
            indexes(index@, source@, 0, dest@, d as int),
        decreases dest@.len() - d,
    {
        let ghost before = index@;
        index.insert(dest_keys[d].clone(), d);
        proof {
            let seen = dest@.take(d as int);
            let now = dest@.take(d + 1);
            let new_key = key(dest@[d as int]);
            assert forall|k: Seq<char>| #[trigger] index@.contains_key(k) implies is_last_with(
                now,
                index@[k] as int,
                k,
            ) && absent(source@, 0, k) by {
                if k != new_key {
                    assert(before.contains_key(k));
                    assert(is_last_with(seen, before[k] as int, k));
                    assert forall|j: int| index@[k] < j < now.len() implies !has_key(now, j, k) by {
                        if j < d {
                            assert(!has_key(seen, j, k));
                        }
                    }
                }
            }
            assert forall|k: Seq<char>| !(#[trigger] index@.contains_key(k)) implies absent(
                now,
                d + 1,
                k,
            ) || !absent(source@, 0, k) by {
                assert(!before.contains_key(k));
                assert forall|j: int| 0 <= j < d + 1 implies !has_key(now, j, k) by {
                    if j < d {
                        assert(!has_key(seen, j, k));
                    }
                }
            }
        }
        d = d + 1;
    }
    assert(dest@.take(dest@.len() as int) =~= dest@);
    let mut partners: Vec<Option<usize>> = Vec::with_capacity(source.len());
    let mut i: usize = 0;
    while i < source.len()
        invariant
            i <= source@.len(),
            source_keys@.len() == source@.len(),
            forall|j: int|
                0 <= j < source@.len() ==> (#[trigger] source_keys@[j])@ == key(source@[j]),
            partners@.len() == i,
            forall|j: int|
                0 <= j < i ==> is_partner(source@, dest@, j, #[trigger] partners@[j]),
            indexes(index@, source@, i as int, dest@, dest@.len() as int),
            dest@.take(dest@.len() as int) == dest@,
        decreases source@.len() - i,
    {
        let ghost before = index@;
        let k = source_keys[i].as_str();
        let partner = match index.get(k) {
            Some(position) => Some(*position),
            None => None,
        };
        index.remove(k);
        partners.push(partner);
        proof {
            assert(k@ == key(source@[i as int]));
            assert(is_partner(source@, dest@, i as int, partner));
            assert forall|other: Seq<char>| #[trigger] index@.contains_key(other) implies is_last_with(
                dest@,
                index@[other] as int,
                other,
            ) && absent(source@, i + 1, other) by {
                assert(before.contains_key(other));
                assert forall|j: int| 0 <= j < i + 1 implies !has_key(source@, j, other) by {
                    if j < i {
                        assert(absent(source@, i as int, other));
                    }
                }
            }
            assert forall|other: Seq<char>| !(#[trigger] index@.contains_key(other)) implies absent(
                dest@,
                dest@.len() as int,
                other,
            ) || !absent(source@, i + 1, other) by {
                if other == k@ {
                    assert(has_key(source@, i as int, other));
                } else {
                    assert(!before.contains_key(other));
                    if !absent(source@, i as int, other) {
                        let j = choose|j: int| 0 <= j < i && has_key(source@, j, other);
                        assert(has_key(source@, j, other));
                    }
                }
            }
        }
        i = i + 1;
    }
    let mut orphans: Vec<usize> = Vec::new();
    let mut d: usize = 0;
    while d < dest.len()
        invariant
            d <= dest@.len(),
            dest_keys@.len() == dest@.len(),
            forall|j: int|
                0 <= j < dest@.len() ==> (#[trigger] dest_keys@[j])@ == key(dest@[j]),
            indexes(index@, source@, source@.len() as int, dest@, dest@.len() as int),
            dest@.take(dest@.len() as int) == dest@,
            orphans@ == orphans_of(source@, dest@, d as int),
        decreases dest@.len() - d,
    {
        let k = dest_keys[d].as_str();
        let found = index.get(k);
        proof {
            assert(k@ == key(dest@[d as int]));
            assert(has_key(dest@, d as int, k@));
            if index@.contains_key(k@) && index@[k@] != d {
                let last = index@[k@] as int;
                assert(is_last_with(dest@, last, k@));
                assert(!is_last_with(dest@, d as int, k@)) by {
                    if last < d {
                        assert(!has_key(dest@, d as int, k@));
                    } else {
                        assert(has_key(dest@, last, k@));
                    }
                }
            }
        }
        if let Some(position) = found {
            if *position == d {
                orphans.push(d);
            }
        }
        d = d + 1;
    }
    Pairing { partners, orphans }
}

/// Whether `source` is newer than `dest` by more than `tolerance`. Where one of the two
/// times is not known there is nothing to be tolerant of: a known time is then newer than
/// an unknown one.
pub open spec fn newer(
    source: Option<Timestamp>,
    dest: Option<Timestamp>,
    tolerance: Span,
) -> bool {
    match (source, dest) {
        (Some(s), Some(d)) => s.at() > d.at() + tolerance.length(),
        (Some(_), None) => true,
        (None, _) => false,
    }
}

/// Whether size and modification time tell two files apart.
pub open spec fn differs(source: Entry, dest: Entry, tolerance: Span) -> bool {
    source.size != dest.size || newer(source.modified, dest.modified, tolerance)
}

/// Whether size and modification time tell two files apart. `tolerance` is what the
/// destination's file system cannot resolve.
pub fn changed(source: &Entry, dest: &Entry, tolerance: &Span) -> (r: bool)
    ensures
        r == differs(*source, *dest, *tolerance),
{
    let is_newer = match (&source.modified, &dest.modified) {
        (Some(s), Some(d)) => s.as_nanos() - d.as_nanos() > tolerance.as_nanos(),
        (Some(_), None) => true,
        (None, _) => false,
    };
    source.size != dest.size || is_newer
}

/// The entries whose flag is set, in order.
pub open spec fn kept(entries: Seq<Entry>, flags: Seq<bool>) -> Seq<Entry>
    decreases entries.len(),
{
    if entries.len() == 0 {
        Seq::empty()
    } else {
        let before = kept(entries.drop_last(), flags);
        if flags[entries.len() - 1] {
            before.push(entries.last())
        } else {
            before
        }
    }
}

/// The entries at `positions`.
pub open spec fn entries_at(entries: Seq<Entry>, positions: Seq<usize>) -> Seq<Entry> {
    positions.map_values(|i: usize| entries[i as int])
}

/// All files of a scan, small ones first: a comparison does not care how files are
/// copied.
pub fn flat_entries(workload: Workload) -> (r: Vec<Entry>)
    ensures
        r@ == workload.small@ + workload.large@,
{
    let mut entries = workload.small;
    let mut large = workload.large;
    entries.append(&mut large);
    entries
}

/// A comparison of two trees, file by file.
#[derive(Debug)]
pub struct Diff {
    pub source: Vec<Entry>,
    pub dest: Vec<Entry>,
    pub pairing: Pairing,
    pub strategy: DiffStrategy,
    pub tolerance: Span,
    /// For each source entry that was decided, whether it is to be copied.
    pub flags: Vec<bool>,
}

/// Whether `r` is the comparison of `source` with what the listing of the destination came
/// to.
pub open spec fn begins(
    source: Vec<Entry>,
    dest: Result<Vec<Entry>, Error>,
    strategy: DiffStrategy,
    tolerance: Span,
    r: Result<Diff, Error>,
) -> bool {
    match dest {
        Err(error) if !(error is SourceNotFound) => r == Err::<Diff, Error>(error),
        _ => r matches Ok(diff) && diff.wf() && diff.source == source && diff.dest@ == (match dest {
            Ok(entries) => entries@,
            Err(_) => Seq::<Entry>::empty(),
        }) && diff.strategy == strategy && diff.tolerance == tolerance && diff.flags@.len() == 0,
    }
}

impl Diff {
    pub open spec fn wf(self) -> bool {
        &&& self.pairing.pairs(self.source@, self.dest@)
        &&& self.flags@.len() <= self.source@.len()
        &&& forall|i: int|
            0 <= i < self.flags@.len() && self.settled(i) is Some ==> self.settled(i) == Some(
                #[trigger] self.flags@[i],
            )
    }

    /// What is known of the source entry at `i` without a look at its content: an entry
    /// that has no partner is copied, and so is one that changed.
    pub open spec fn settled(self, i: int) -> Option<bool> {
        match self.pairing.partners@[i] {
            None => Some(true),
            Some(d) => match self.strategy {
                DiffStrategy::SizeAndModifiedTime => Some(
                    differs(self.source@[i], self.dest@[d as int], self.tolerance),
                ),
                DiffStrategy::Checksum => None,
            },
        }
    }

    /// Whether all source entries are decided.
    pub open spec fn decided(self) -> bool {
        self.flags@.len() == self.source@.len()
    }

    /// Whether both compare the same trees in the same way.
    pub open spec fn same_sides(self, other: Diff) -> bool {
        &&& self.source == other.source
        &&& self.dest == other.dest
        &&& self.pairing == other.pairing
        &&& self.strategy == other.strategy
        &&& self.tolerance == other.tolerance
    }

    /// A comparison of the files of `source` with those of `dest`. A destination that does
    /// not exist has no files; any other failure to list it is handed on.
    pub fn new(
        source: Vec<Entry>,
        dest: Result<Vec<Entry>, Error>,
        strategy: DiffStrategy,
        tolerance: Span,
    ) -> (r: Result<Diff, Error>)
        ensures
            begins(source, dest, strategy, tolerance, r),
    {
        let dest = match dest {
            Ok(entries) => entries,
            Err(error) => match error {
                Error::SourceNotFound { .. } => Vec::new(),
                other => {
                    return Err(other);
                },
            },
        };
        let pairing = pair_entries(&source, &dest);
        Ok(Diff { source, dest, pairing, strategy, tolerance, flags: Vec::new() })
    }

    /// Decides source entries up to the next one whose content has to be compared, and
    /// gives the two files to read, or `None` where all are decided.
    pub fn next_comparison(&mut self) -> (r: Option<(FilePath, FilePath)>)
        requires
            old(self).wf(),
        ensures
            final(self).wf(),
            final(self).same_sides(*old(self)),
            old(self).flags@.is_prefix_of(final(self).flags@),
            forall|i: int|
                old(self).flags@.len() <= i < final(self).flags@.len() ==> final(self).settled(i)
                    == Some(#[trigger] final(self).flags@[i]),
            match r {
                None => final(self).decided(),
                Some((source_file, dest_file)) => {
                    let i = final(self).flags@.len() as int;
                    &&& i < final(self).source@.len()
                    &&& final(self).settled(i) is None
                    &&& source_file == final(self).source@[i].path
                    &&& final(self).pairing.partners@[i] matches Some(d) && dest_file
                        == final(self).dest@[d as int].path
                },
            },
    {
        let ghost start = self.flags@;
        while self.flags.len() < self.source.len()
            invariant
                self.wf(),
                self.same_sides(*old(self)),
                start == old(self).flags@,
                start.is_prefix_of(self.flags@),
                forall|i: int|
                    start.len() <= i < self.flags@.len() ==> self.settled(i) == Some(
                        #[trigger] self.flags@[i],
                    ),
            decreases self.source@.len() - self.flags@.len(),
        {
            let i: usize = self.flags.len();
            let partner = self.pairing.partners[i];
            assert(is_partner(self.source@, self.dest@, i as int, self.pairing.partners@[i as int]));
            match partner {
                None => {
                    self.flags.push(true);
                },
                Some(d) => match self.strategy {
                    DiffStrategy::SizeAndModifiedTime => {
                        let flag = changed(&self.source[i], &self.dest[d], &self.tolerance);
                        self.flags.push(flag);
                    },
                    DiffStrategy::Checksum => {
                        return Some((self.source[i].path.clone(), self.dest[d].path.clone()));
                    },
                },
            }
        }
        None
    }

    /// Whether `flags` are those behind the hashes of the next two files, and `r` tells
    /// whether both could be had.
    pub open spec fn takes_in(
        self,
        flags: Seq<bool>,
        source_hash: Result<[u8; 32], Error>,
        dest_hash: Result<[u8; 32], Error>,
        r: Result<(), Error>,
    ) -> bool {
        match (source_hash, dest_hash) {
            (Ok(a), Ok(b)) => r is Ok && flags == self.flags@.push(a@ != b@),
            (Err(error), _) => r == Err::<(), Error>(error) && flags == self.flags@,
            (Ok(_), Err(error)) => r == Err::<(), Error>(error) && flags == self.flags@,
        }
    }

    /// Takes in the hashes of the two files that `next_comparison` gave. A file that could
    /// not be read ends the comparison with its error, that of the source first.
    pub fn record(
        &mut self,
        source_hash: Result<[u8; 32], Error>,
        dest_hash: Result<[u8; 32], Error>,
    ) -> (r: Result<(), Error>)
        requires
            old(self).wf(),
            old(self).flags@.len() < old(self).source@.len(),
            old(self).settled(old(self).flags@.len() as int) is None,
        ensures
            final(self).wf(),
            final(self).same_sides(*old(self)),
            old(self).takes_in(final(self).flags@, source_hash, dest_hash, r),
            r is Err ==> final(self).flags == old(self).flags,
    {
        match source_hash {
            Err(error) => Err(error),
            Ok(a) => match dest_hash {
                Err(error) => Err(error),
                Ok(b) => {
                    let ghost before = self.flags@;
                    self.flags.push(!same_hash(&a, &b));
                    assert forall|i: int|
                        0 <= i < self.flags@.len() && self.settled(i) is Some implies self.settled(
                        i,
                    ) == Some(#[trigger] self.flags@[i]) by {
                        assert(self.flags@[i] == before[i]);
                    }
                    Ok(())
                },
            },
        }
    }

    /// The plan, once all source entries are decided.
    pub fn finish(self) -> (r: SyncPlan)
        requires
            self.wf(),
            self.decided(),
        ensures
            r.to_copy@ == kept(self.source@, self.flags@),
            r.to_delete@ == entries_at(
                self.dest@,
                orphans_of(self.source@, self.dest@, self.dest@.len() as int),
            ),
    {
        let mut to_copy: Vec<Entry> = Vec::new();
        let mut i: usize = 0;
        while i < self.source.len()
            invariant
                i <= self.source@.len(),
                self.flags@.len() == self.source@.len(),
                to_copy@ == kept(self.source@.take(i as int), self.flags@),
            decreases self.source@.len() - i,
        {
            assert(self.source@.take(i + 1).drop_last() =~= self.source@.take(i as int));
            if self.flags[i] {
                to_copy.push(self.source[i].clone());
            }
            i = i + 1;
        }
        assert(self.source@.take(self.source@.len() as int) =~= self.source@);
        let mut to_delete: Vec<Entry> = Vec::new();
        let mut j: usize = 0;
        assert(self.dest@.len() == self.dest.len());
        proof {
            lemma_orphans(self.source@, self.dest@, self.dest@.len() as int);
        }
        while j < self.pairing.orphans.len()
            invariant
                j <= self.pairing.orphans@.len(),
                forall|k: int|
                    0 <= k < self.pairing.orphans@.len() ==> #[trigger] self.pairing.orphans@[k]
                        < self.dest@.len(),
                to_delete@ == entries_at(self.dest@, self.pairing.orphans@.take(j as int)),
            decreases self.pairing.orphans@.len() - j,
        {
            let d = self.pairing.orphans[j];
            assert(self.pairing.orphans@.take(j + 1) =~= self.pairing.orphans@.take(j as int).push(d));
            to_delete.push(self.dest[d].clone());
            assert(to_delete@ =~= entries_at(self.dest@, self.pairing.orphans@.take(j + 1)));
            j = j + 1;
        }
        assert(self.pairing.orphans@.take(self.pairing.orphans@.len() as int)
            =~= self.pairing.orphans@);
        SyncPlan { to_copy, to_delete }
    }
}

/// The positions that `orphans_of` gives are exactly those of orphans.
proof fn lemma_orphans(source: Seq<Entry>, dest: Seq<Entry>, count: int)
    requires
        0 <= count <= dest.len() <= usize::MAX,
    ensures
        forall|k: int|
            0 <= k < orphans_of(source, dest, count).len() ==> {
                let d = #[trigger] orphans_of(source, dest, count)[k];
                d < count && is_orphan(source, dest, d as int)
            },
        forall|d: int|
            0 <= d < count && is_orphan(source, dest, d) ==> orphans_of(
                source,
                dest,
                count,
            ).contains(d as usize),
    decreases count,
{
    if count > 0 {
        lemma_orphans(source, dest, count - 1);
        let before = orphans_of(source, dest, count - 1);
        let all = orphans_of(source, dest, count);
        assert forall|d: int| 0 <= d < count && is_orphan(source, dest, d) implies all.contains(
            d as usize,
        ) by {
            if d < count - 1 {
                let k = choose|k: int| 0 <= k < before.len() && before[k] == d as usize;
                assert(all[k] == d as usize);
            } else {
                assert(all[all.len() - 1] == d as usize);
            }
        }
    }
}

/// An entry that is kept is one whose flag is set, and every such entry is kept.
proof fn lemma_kept(entries: Seq<Entry>, flags: Seq<bool>)
    ensures
        forall|i: int|
            0 <= i < entries.len() && flags[i] ==> kept(entries, flags).contains(
                #[trigger] entries[i],
            ),
        forall|e: Entry| #[trigger]
            kept(entries, flags).contains(e) ==> exists|i: int|
                0 <= i < entries.len() && flags[i] && #[trigger] entries[i] == e,
    decreases entries.len(),
{
    if entries.len() > 0 {
        let front = entries.drop_last();
        lemma_kept(front, flags);
        let before = kept(front, flags);
        let all = kept(entries, flags);
        assert forall|i: int| 0 <= i < entries.len() && flags[i] implies all.contains(
            #[trigger] entries[i],
        ) by {
            if i < front.len() {
                assert(front[i] == entries[i]);
                let k = choose|k: int| 0 <= k < before.len() && before[k] == entries[i];
                assert(all[k] == entries[i]);
            } else {
                assert(all[all.len() - 1] == entries[i]);
            }
        }
        assert forall|e: Entry| #[trigger] all.contains(e) implies exists|i: int|
            0 <= i < entries.len() && flags[i] && #[trigger] entries[i] == e by {
            let k = choose|k: int| 0 <= k < all.len() && all[k] == e;
            if k < before.len() {
                assert(before[k] == e);
                assert(before.contains(e));
                let i = choose|i: int| 0 <= i < front.len() && flags[i] && #[trigger] front[i] == e;
                assert(entries[i] == e);
            } else {
                assert(entries[entries.len() - 1] == e);
            }
        }
    }
}

/// No entry of the destination stands for two entries of the source, and none that stands
/// for one is deleted: every entry has one place in the plan at most.
pub proof fn lemma_every_entry_has_one_place(
    pairing: Pairing,
    source: Seq<Entry>,
    dest: Seq<Entry>,
)
    requires
        pairing.pairs(source, dest),
        dest.len() <= usize::MAX,
    ensures
        forall|i: int, j: int|
            0 <= i < j < source.len() && pairing.partners@[i] is Some ==> #[trigger] pairing.partners@[i]
                != #[trigger] pairing.partners@[j],
        forall|i: int, k: int|
            0 <= i < source.len() && 0 <= k < pairing.orphans@.len() ==> #[trigger] pairing.partners@[i]
                != Some(#[trigger] pairing.orphans@[k]),
{
    lemma_orphans(source, dest, dest.len() as int);
    assert forall|i: int, j: int|
        0 <= i < j < source.len() && pairing.partners@[i] is Some implies #[trigger] pairing.partners@[i]
        != #[trigger] pairing.partners@[j] by {
        let k = key(source[i]);
        assert(is_partner(source, dest, i, pairing.partners@[i]));
        assert(is_partner(source, dest, j, pairing.partners@[j]));
        if pairing.partners@[i] == pairing.partners@[j] {
            assert(key(source[j]) == k);
            assert(has_key(source, i, k));
            assert(!absent(source, j, k));
        }
    }
    assert forall|i: int, k: int|
        0 <= i < source.len() && 0 <= k < pairing.orphans@.len() implies #[trigger] pairing.partners@[i]
        != Some(#[trigger] pairing.orphans@[k]) by {
        let d = pairing.orphans@[k];
        assert(is_orphan(source, dest, d as int));
        assert(is_partner(source, dest, i, pairing.partners@[i]));
        if pairing.partners@[i] == Some(d) {
            assert(has_key(source, i, key(dest[d as int])));
            assert(false);
        }
    }
}

/// Into a destination without files everything is copied, and nothing is deleted.
pub proof fn lemma_new_destination_takes_everything(diff: Diff)
    requires
        diff.wf(),
        diff.decided(),
        diff.dest@.len() == 0,
    ensures
        kept(diff.source@, diff.flags@) == diff.source@,
        orphans_of(diff.source@, diff.dest@, 0) == Seq::<usize>::empty(),
{
    assert forall|i: int| 0 <= i < diff.source@.len() implies diff.flags@[i] by {
        assert(is_partner(diff.source@, diff.dest@, i, diff.pairing.partners@[i]));
        assert(diff.settled(i) == Some(true));
    }
    lemma_all_kept(diff.source@, diff.flags@);
}

/// Where all flags are set, all entries are kept.
proof fn lemma_all_kept(entries: Seq<Entry>, flags: Seq<bool>)
    requires
        forall|i: int| 0 <= i < entries.len() ==> flags[i],
    ensures
        kept(entries, flags) == entries,
    decreases entries.len(),
{
    if entries.len() > 0 {
        lemma_all_kept(entries.drop_last(), flags);
        assert(entries.drop_last().push(entries.last()) =~= entries);
    } else {
        assert(kept(entries, flags) =~= entries);
    }
}

/// Whether no two entries have the same key.
pub open spec fn distinct_keys(entries: Seq<Entry>) -> bool {
    forall|i: int, j: int|
        0 <= i < j < entries.len() ==> key(#[trigger] entries[i]) != key(#[trigger] entries[j])
}

/// Two sides with the same names, each of whose pairs of files was found unchanged, need
/// nothing to be done.
pub proof fn lemma_equal_sides_need_nothing(diff: Diff)
    requires
        diff.wf(),
        diff.decided(),
        distinct_keys(diff.source@),
        forall|i: int|
            0 <= i < diff.source@.len() ==> !absent(
                diff.dest@,
                diff.dest@.len() as int,
                key(#[trigger] diff.source@[i]),
            ),
        forall|d: int|
            0 <= d < diff.dest@.len() ==> !absent(
                diff.source@,
                diff.source@.len() as int,
                key(#[trigger] diff.dest@[d]),
            ),
        forall|i: int|
            0 <= i < diff.source@.len() && diff.pairing.partners@[i] is Some
                ==> !#[trigger] diff.flags@[i],
        diff.dest@.len() <= usize::MAX,
    ensures
        kept(diff.source@, diff.flags@) == Seq::<Entry>::empty(),
        orphans_of(diff.source@, diff.dest@, diff.dest@.len() as int) == Seq::<usize>::empty(),
{
    let kept_entries = kept(diff.source@, diff.flags@);
    lemma_kept(diff.source@, diff.flags@);
    if kept_entries.len() > 0 {
        assert(kept_entries.contains(kept_entries[0]));
        let i = choose|i: int|
            0 <= i < diff.source@.len() && diff.flags@[i] && #[trigger] diff.source@[i]
                == kept_entries[0];
        let k = key(diff.source@[i]);
        assert(is_partner(diff.source@, diff.dest@, i, diff.pairing.partners@[i]));
        assert(absent(diff.source@, i, k)) by {
            assert forall|j: int| 0 <= j < i implies !has_key(diff.source@, j, k) by {
                assert(key(diff.source@[j]) != key(diff.source@[i]));
            }
        }
        assert(false);
    }
    assert(kept_entries =~= Seq::<Entry>::empty());
    lemma_orphans(diff.source@, diff.dest@, diff.dest@.len() as int);
    let orphans = orphans_of(diff.source@, diff.dest@, diff.dest@.len() as int);
    if orphans.len() > 0 {
        let d = orphans[0] as int;
        assert(is_orphan(diff.source@, diff.dest@, d));
        assert(!absent(diff.source@, diff.source@.len() as int, key(diff.dest@[d])));
        assert(false);
    }
    assert(orphans =~= Seq::<usize>::empty());
}

/// Whether the entry of the destination at `d` stays after the plan was carried out.
pub open spec fn stays(diff: Diff, d: int) -> bool {
    0 <= d < diff.dest@.len() && !orphans_of(
        diff.source@,
        diff.dest@,
        diff.dest@.len() as int,
    ).contains(d as usize)
}

/// Once the plan is carried out, the destination has exactly the names of the source:
/// each comes from an entry that was copied, or from one that stays. This leaves out a
/// destination that holds one name in several Unicode forms.
pub proof fn lemma_sync_leaves_the_names_of_the_source(diff: Diff, k: Seq<char>)
    requires
        diff.wf(),
        diff.decided(),
        distinct_keys(diff.dest@),
        diff.dest@.len() <= usize::MAX,
    ensures
        !absent(diff.source@, diff.source@.len() as int, k) <==> {
            ||| exists|e: Entry| #[trigger]
                kept(diff.source@, diff.flags@).contains(e) && key(e) == k
            ||| exists|d: int| #[trigger] stays(diff, d) && has_key(diff.dest@, d, k)
        },
{
    let source = diff.source@;
    let dest = diff.dest@;
    lemma_kept(source, diff.flags@);
    lemma_orphans(source, dest, dest.len() as int);
    let orphans = orphans_of(source, dest, dest.len() as int);
    if !absent(source, source.len() as int, k) {
        let some = choose|i: int| 0 <= i < source.len() && has_key(source, i, k);
        let i = lemma_first_with(source, some, k);
        assert(is_partner(source, dest, i, diff.pairing.partners@[i]));
        match diff.pairing.partners@[i] {
            None => {
                assert(diff.settled(i) == Some(true));
                assert(diff.flags@[i]);
                assert(kept(source, diff.flags@).contains(source[i]));
            },
            Some(d) => {
                assert(!orphans.contains(d)) by {
                    if orphans.contains(d) {
                        let m = choose|m: int| 0 <= m < orphans.len() && orphans[m] == d;
                        assert(is_orphan(source, dest, d as int));
                        assert(has_key(source, i, key(dest[d as int])));
                    }
                }
                assert(stays(diff, d as int));
            },
        }
    }
    if exists|e: Entry| #[trigger] kept(source, diff.flags@).contains(e) && key(e) == k {
        let e = choose|e: Entry| #[trigger] kept(source, diff.flags@).contains(e) && key(e) == k;
        let i = choose|i: int|
            0 <= i < source.len() && diff.flags@[i] && #[trigger] source[i] == e;
        assert(has_key(source, i, k));
    }
    if exists|d: int| #[trigger] stays(diff, d) && has_key(dest, d, k) {
        let d = choose|d: int| #[trigger] stays(diff, d) && has_key(dest, d, k);
        assert(!is_orphan(source, dest, d));
        assert(is_last_with(dest, d, k)) by {
            assert forall|j: int| d < j < dest.len() implies !has_key(dest, j, k) by {
                assert(key(dest[d]) != key(dest[j]));
            }
        }
    }
}

/// The first entry up to `i` that has the key.
proof fn lemma_first_with(entries: Seq<Entry>, i: int, k: Seq<char>) -> (first: int)
    requires
        has_key(entries, i, k),
    ensures
        0 <= first <= i,
        has_key(entries, first, k),
        absent(entries, first, k),
    decreases i,
{
    if absent(entries, i, k) {
        i
    } else {
        let j = choose|j: int| 0 <= j < i && has_key(entries, j, k);
        lemma_first_with(entries, j, k)
    }
}

/// Files of different sizes differ, whatever their times are and whichever of the two is the
/// larger.
pub proof fn lemma_other_size_is_a_change(source: Entry, dest: Entry, tolerance: Span)
    ensures
        source.size != dest.size ==> differs(source, dest, tolerance),
        source.size < dest.size ==> differs(source, dest, tolerance),
        source.size > dest.size ==> differs(source, dest, tolerance),
{
}

/// A source that is newer by more than the tolerance differs, whatever the sizes are, and so
/// does one whose counterpart has no known time.
pub proof fn lemma_newer_source_is_a_change(source: Entry, dest: Entry, tolerance: Span)
    ensures
        source.modified matches Some(s) && dest.modified matches Some(d) && s.at() - d.at()
            > tolerance.length() ==> differs(source, dest, tolerance),
        source.modified is Some && dest.modified is None ==> differs(source, dest, tolerance),
{
}

/// Nothing else is a change: a file of the same size that is older than its counterpart, or
/// newer within the tolerance only, or whose time is not known, is left alone.
pub proof fn lemma_older_source_is_no_change(source: Entry, dest: Entry, tolerance: Span)
    requires
        source.size == dest.size,
    ensures
        source.modified matches Some(s) && dest.modified matches Some(d) && s.at() - d.at()
            <= tolerance.length() ==> !differs(source, dest, tolerance),
        source.modified is None ==> !differs(source, dest, tolerance),
{
}

/// A larger tolerance finds fewer changes, a later source finds more, and what was copied
/// with its time is no change any more.
pub proof fn lemma_changes_go_by_time(
    source: Entry,
    later: Entry,
    dest: Entry,
    tolerance: Span,
    wider: Span,
)
    requires
        source.size == later.size,
        source.modified is Some,
        later.modified is Some,
        source.modified->0.at() <= later.modified->0.at(),
        0 <= tolerance.length() <= wider.length(),
    ensures
        differs(source, dest, wider) ==> differs(source, dest, tolerance),
        differs(source, dest, tolerance) ==> differs(later, dest, tolerance),
        dest.size == source.size && dest.modified == source.modified ==> !differs(
            source,
            dest,
            tolerance,
        ),
{
}

/// A plan copies every source entry that has no counterpart, and every one whose counterpart
/// has another size or is older than the tolerance explains, and no other.
pub proof fn lemma_changed_files_are_copied(diff: Diff, i: int)
    requires
        diff.wf(),
        diff.decided(),
        diff.strategy == DiffStrategy::SizeAndModifiedTime,
        0 <= i < diff.source@.len(),
    ensures
        diff.pairing.partners@[i] is None ==> diff.flags@[i],
        diff.pairing.partners@[i] matches Some(d) ==> {
            let source = diff.source@[i];
            let dest = diff.dest@[d as int];
            let newer_by = source.modified->0.at() - dest.modified->0.at();
            &&& source.size != dest.size ==> diff.flags@[i]
            &&& source.modified is Some && dest.modified is Some && newer_by
                > diff.tolerance.length() ==> diff.flags@[i]
            &&& source.modified is Some && dest.modified is None ==> diff.flags@[i]
            &&& source.size == dest.size && (source.modified is None || (dest.modified is Some
                && newer_by <= diff.tolerance.length())) ==> !diff.flags@[i]
        },
        diff.flags@[i] ==> kept(diff.source@, diff.flags@).contains(diff.source@[i]),
{
    assert(diff.settled(i) is Some);
    assert(diff.settled(i) == Some(diff.flags@[i]));
    if diff.flags@[i] {
        lemma_flagged_is_kept(diff.source@, diff.flags@, i);
    }
}

proof fn lemma_flagged_is_kept(entries: Seq<Entry>, flags: Seq<bool>, i: int)
    requires
        0 <= i < entries.len(),
        flags[i],
    ensures
        kept(entries, flags).contains(entries[i]),
    decreases entries.len(),
{
    let now = kept(entries, flags);
    if i == entries.len() - 1 {
        assert(now.last() == entries[i]);
        assert(now[now.len() - 1] == entries[i]);
    } else {
        let front = entries.drop_last();
        lemma_flagged_is_kept(front, flags, i);
        let before = kept(front, flags);
        let k = choose|k: int| 0 <= k < before.len() && before[k] == front[i];
        assert(now[k] == entries[i]);
    }
}

/// An entry of the destination is an orphan only where no entry of the source has its name,
/// and the last entry of such a name always is.
pub proof fn lemma_orphans_have_no_source(source: Seq<Entry>, dest: Seq<Entry>, d: int, i: int)
    requires
        0 <= d < dest.len(),
        0 <= i < source.len(),
    ensures
        key(source[i]) == key(dest[d]) ==> !is_orphan(source, dest, d),
        is_orphan(source, dest, d) ==> key(source[i]) != key(dest[d]),
        (forall|j: int| 0 <= j < source.len() ==> key(#[trigger] source[j]) != key(dest[d])) && (
        forall|j: int| d < j < dest.len() ==> key(#[trigger] dest[j]) != key(dest[d])) ==> is_orphan(
            source,
            dest,
            d,
        ),
{
    if key(source[i]) == key(dest[d]) {
        assert(has_key(source, i, key(dest[d])));
    }
}

/// What is compared has one name, and the position of an orphan is listed once.
pub proof fn lemma_partners_have_one_name(
    source: Seq<Entry>,
    dest: Seq<Entry>,
    i: int,
    partner: Option<usize>,
)
    requires
        0 <= i < source.len(),
        is_partner(source, dest, i, partner),
    ensures
        partner matches Some(d) ==> d < dest.len() && key(dest[d as int]) == key(source[i]),
        partner is None && absent(source, i, key(source[i])) ==> forall|d: int|
            0 <= d < dest.len() ==> key(#[trigger] dest[d]) != key(source[i]),
{
    if partner is None && absent(source, i, key(source[i])) {
        assert forall|d: int| 0 <= d < dest.len() implies key(#[trigger] dest[d]) != key(
            source[i],
        ) by {
            assert(!has_key(dest, d, key(source[i])));
        }
    }
}

/// Files whose hashes differ are a change and files with one hash are none; a hash that could
/// not be had decides nothing and ends the comparison with its error, that of the source
/// before that of the destination.
pub proof fn lemma_other_content_is_a_change(
    diff: Diff,
    flags: Seq<bool>,
    source_hash: Result<[u8; 32], Error>,
    dest_hash: Result<[u8; 32], Error>,
    r: Result<(), Error>,
)
    requires
        diff.takes_in(flags, source_hash, dest_hash, r),
    ensures
        r is Ok <==> source_hash is Ok && dest_hash is Ok,
        r is Ok ==> flags.len() == diff.flags@.len() + 1 && (flags.last() <==> source_hash->Ok_0@
            != dest_hash->Ok_0@) && flags.drop_last() == diff.flags@,
        r is Err ==> flags == diff.flags@,
        source_hash is Err ==> r->Err_0 == source_hash->Err_0,
        source_hash is Ok && dest_hash is Err ==> r->Err_0 == dest_hash->Err_0,
{
    if r is Ok {
        assert(flags.drop_last() =~= diff.flags@);
    }
}

/// A destination that does not exist is compared as an empty one; no other failure to list it
/// is passed over, and no file that was listed is left out.
pub proof fn lemma_missing_destination_is_empty(
    source: Vec<Entry>,
    dest: Result<Vec<Entry>, Error>,
    strategy: DiffStrategy,
    tolerance: Span,
    r: Result<Diff, Error>,
)
    requires
        begins(source, dest, strategy, tolerance, r),
    ensures
        r is Ok <==> dest is Ok || dest->Err_0 is SourceNotFound,
        r is Err ==> r->Err_0 == dest->Err_0,
        r is Ok ==> r->Ok_0.source@ == source@ && r->Ok_0.strategy == strategy
            && r->Ok_0.tolerance == tolerance,
        dest is Ok ==> r->Ok_0.dest@ == dest->Ok_0@,
        r is Ok && dest is Err ==> r->Ok_0.dest@.len() == 0,
{
}

/// A comparison never changes what it compares, or how.
pub proof fn lemma_sides_stay(before: Diff, after: Diff)
    requires
        after.same_sides(before),
    ensures
        after.source == before.source,
        after.dest == before.dest,
        after.pairing == before.pairing,
        after.strategy == before.strategy,
        after.tolerance == before.tolerance,
{
}

} // verus!
