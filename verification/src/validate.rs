use vstd::hash_map::StringHashMap;
use vstd::prelude::*;
use vstd::string::*;

use crate::error::Error;
use crate::operations::pipeline::Validation;
use crate::paths;
use crate::paths::{normalize_for_comparison, FilePath};
use crate::planner::dispatcher;
use crate::profiler::{DirEntry, Entry, FilesystemCapabilities, Workload};
use crate::text;

verus! {

/// `text` in lower case, as Unicode has it.
pub uninterp spec fn lowercase(text: Seq<char>) -> Seq<char>;

/// `str::to_lowercase`: `text` in lower case. What it gives is named `lowercase`.
#[verifier::external_body]
fn to_lowercase(text: &str) -> (r: String)
    ensures
        r@ == lowercase(text@),
{
    text.to_lowercase()
}

/// A file or a directory that is to be created at the destination.
#[derive(Debug)]
pub struct Item {
    pub path: FilePath,
    pub relative_path: FilePath,
    /// `None` for a directory.
    pub size: Option<u64>,
}

/// What two names have in common that a file system without regard to case takes for one.
pub open spec fn folded(item: Item) -> Seq<char> {
    lowercase(paths::render(paths::normalized(item.relative_path@)))
}

/// Whether `j` is the first of the other items that the one at `i` collides with.
pub open spec fn collides(items: Seq<Item>, i: int, j: int) -> bool {
    &&& 0 <= i < items.len()
    &&& 0 <= j < items.len()
    &&& i != j
    &&& folded(items[i]) == folded(items[j])
    &&& forall|k: int| 0 <= k < j && k != i ==> folded(#[trigger] items[k]) != folded(items[i])
}

/// The first of the other items that the one at `i` collides with.
pub open spec fn collision(items: Seq<Item>, i: int) -> Option<int> {
    if exists|j: int| collides(items, i, j) {
        Some(choose|j: int| collides(items, i, j))
    } else {
        None
    }
}

/// Whether a character cannot stand in a name on Windows.
pub open spec fn is_forbidden(c: char) -> bool {
    ||| (c as u32) < 0x20
    ||| c == '<'
    ||| c == '>'
    ||| c == ':'
    ||| c == '"'
    ||| c == '|'
    ||| c == '?'
    ||| c == '*'
    ||| c == '\\'
}

/// A name up to its first dot.
pub open spec fn stem(name: Seq<char>) -> Seq<char>
    decreases name.len(),
{
    if name.len() == 0 || name[0] == '.' {
        Seq::empty()
    } else {
        seq![name[0]] + stem(name.skip(1))
    }
}

/// Whether a name in lower case is that of a numbered device on Windows.
pub open spec fn is_port(name: Seq<char>, number: nat) -> bool {
    name == "com"@ + text::decimal(number) || name == "lpt"@ + text::decimal(number)
}

/// Whether a name in lower case is that of a device on Windows.
pub open spec fn is_device(name: Seq<char>) -> bool {
    ||| name == "con"@
    ||| name == "prn"@
    ||| name == "aux"@
    ||| name == "nul"@
    ||| exists|number: nat| 1 <= number <= 9 && #[trigger] is_port(name, number)
}

/// Whether Windows does not take a name: it is that of a device, with or without an
/// extension, it holds a character that is forbidden, or it ends with a dot or a space.
pub open spec fn is_reserved(name: Seq<char>) -> bool {
    ||| is_device(text::lowered(stem(name)))
    ||| exists|i: int| 0 <= i < name.len() && is_forbidden(#[trigger] name[i])
    ||| name.len() > 0 && (name.last() == '.' || name.last() == ' ')
}

/// Whether any name of a path is one that Windows does not take.
pub open spec fn has_reserved_name(item: Item) -> bool {
    let names = item.relative_path@.names;
    exists|i: int| 0 <= i < names.len() && is_reserved(#[trigger] names[i])
}

/// Why the item at `i` cannot be created at the destination, or `None` where it can.
pub open spec fn verdict(items: Seq<Item>, i: int, caps: FilesystemCapabilities) -> Option<Error> {
    let item = items[i];
    if !caps.case_sensitive && collision(items, i) is Some {
        Some(
            Error::CaseCollision { path: item.path, other: items[collision(items, i)->0].path },
        )
    } else if caps.max_file_size is Some && item.size is Some && item.size->0
        > caps.max_file_size->0 {
        Some(
            Error::FileTooLargeForDest {
                path: item.path,
                size: item.size->0,
                max: caps.max_file_size->0,
            },
        )
    } else if caps.windows_naming_rules && has_reserved_name(item) {
        Some(Error::ReservedName { path: item.path })
    } else {
        None
    }
}

/// Those of `list` that have no verdict against them, in order.
pub open spec fn accepted<T>(list: Seq<T>, verdicts: Seq<Option<Error>>) -> Seq<T>
    decreases list.len(),
{
    if list.len() == 0 {
        Seq::empty()
    } else {
        let before = accepted(list.drop_last(), verdicts);
        if verdicts[list.len() - 1] is None {
            before.push(list.last())
        } else {
            before
        }
    }
}

/// Those of `list` that have a verdict against them, with it, in order.
pub open spec fn rejected<T>(list: Seq<T>, verdicts: Seq<Option<Error>>) -> Seq<(T, Error)>
    decreases list.len(),
{
    if list.len() == 0 {
        Seq::empty()
    } else {
        let before = rejected(list.drop_last(), verdicts);
        match verdicts[list.len() - 1] {
            Some(error) => before.push((list.last(), error)),
            None => before,
        }
    }
}

/// Parts `list` by the verdicts.
fn sift<T>(list: Vec<T>, verdicts: Vec<Option<Error>>) -> (r: (Vec<T>, Vec<(T, Error)>))
    requires
        list@.len() == verdicts@.len(),
    ensures
        r.0@ == accepted(list@, verdicts@),
        r.1@ == rejected(list@, verdicts@),
{
    let mut slots = verdicts;
    let ghost all = list@;
    let ghost given = verdicts@;
    let mut kept: Vec<T> = Vec::new();
    let mut turned_down: Vec<(T, Error)> = Vec::new();
    let mut i: usize = 0;
    for item in it: list
        invariant
            it.seq() == all,
            it.index() == i,
            slots@.len() == given.len() == all.len(),
            forall|j: int| i <= j < slots@.len() ==> slots@[j] == given[j],
            kept@ == accepted(all.take(i as int), given),
            turned_down@ == rejected(all.take(i as int), given),
    {
        proof {
            assert(all.take(i + 1).drop_last() =~= all.take(i as int));
            assert(all.take(i + 1).last() == item);
        }
        let slot = slots[i].take();
        match slot {
            None => {
                kept.push(item);
            },
            Some(error) => {
                turned_down.push((item, error));
            },
        }
        assert(slots@.len() == slots.len());
        i = i + 1;
    }
    assert(all.take(all.len() as int) =~= all);
    (kept, turned_down)
}

/// A copy of `name` up to its first dot, in lower case.
fn lowered_stem(name: &Vec<char>) -> (r: String)
    ensures
        r@ == text::lowered(stem(name@)),
{
    let mut front: String = String::new();
    let mut i: usize = 0;
    assert(name@.skip(0) =~= name@);
    assert(front@ + text::lowered(stem(name@)) =~= text::lowered(stem(name@)));
    while i < name.len() && name[i] != '.'
        invariant
            i <= name@.len(),
            front@ + text::lowered(stem(name@.skip(i as int))) == text::lowered(stem(name@)),
        decreases name@.len() - i,
    {
        let c = text::to_lower_char(name[i]);
        let ghost before = front@;
        front.push(c);
        proof {
            let rest = name@.skip(i as int);
            assert(rest[0] == name@[i as int]);
            assert(rest.skip(1) =~= name@.skip(i + 1));
            assert(text::lowered(seq![rest[0]] + stem(rest.skip(1))) =~= seq![c] + text::lowered(
                stem(rest.skip(1)),
            ));
            assert(before + (seq![c] + text::lowered(stem(rest.skip(1)))) =~= front@
                + text::lowered(stem(rest.skip(1))));
        }
        i = i + 1;
    }
    proof {
        let rest = name@.skip(i as int);
        if i < name@.len() {
            assert(rest[0] == name@[i as int]);
        }
        assert(text::lowered(stem(rest)) =~= Seq::<char>::empty());
        assert(front@ + text::lowered(stem(rest)) =~= front@);
    }
    front
}

/// Whether `name` is that of a device.
fn check_device(name: &str) -> (r: bool)
    ensures
        r == is_device(name@),
{
    if text::same(name, "con") || text::same(name, "prn") || text::same(name, "aux")
        || text::same(name, "nul") {
        return true;
    }
    let mut number: u64 = 1;
    while number <= 9
        invariant
            1 <= number <= 10,
            forall|n: nat| 1 <= n < number ==> !is_port(name@, n),
        decreases 10 - number,
    {
        let digits = text::to_decimal(number);
        let com = text::concat2("com", digits.as_str());
        let lpt = text::concat2("lpt", digits.as_str());
        if text::same(name, com.as_str()) || text::same(name, lpt.as_str()) {
            assert(is_port(name@, number as nat));
            return true;
        }
        number = number + 1;
    }
    false
}

/// Whether Windows does not take `name`.
pub fn check_name(name: &str) -> (r: bool)
    ensures
        r == is_reserved(name@),
{
    let chars = text::to_chars(name);
    let front = lowered_stem(&chars);
    if check_device(front.as_str()) {
        return true;
    }
    let mut i: usize = 0;
    while i < chars.len()
        invariant
            i <= chars@.len(),
            chars@ == name@,
            forall|j: int| 0 <= j < i ==> !is_forbidden(#[trigger] chars@[j]),
        decreases chars@.len() - i,
    {
        let c = chars[i];
        if (c as u32) < 0x20 || c == '<' || c == '>' || c == ':' || c == '"' || c == '|' || c
            == '?' || c == '*' || c == '\\' {
            assert(is_forbidden(name@[i as int]));
            return true;
        }
        i = i + 1;
    }
    if chars.len() == 0 {
        return false;
    }
    let last = chars[chars.len() - 1];
    last == '.' || last == ' '
}

/// Whether any name of the item's path is one that Windows does not take.
fn check_names(item: &Item) -> (r: bool)
    ensures
        r == has_reserved_name(*item),
{
    let names = item.relative_path.names();
    let ghost all = item.relative_path@.names;
    let mut i: usize = 0;
    while i < names.len()
        invariant
            i <= names@.len(),
            all == item.relative_path@.names,
            text::texts(names@) == all,
            forall|j: int| 0 <= j < i ==> !is_reserved(#[trigger] all[j]),
        decreases names@.len() - i,
    {
        assert(all[i as int] == names@[i as int]@);
        if check_name(names[i].as_str()) {
            assert(is_reserved(all[i as int]));
            return true;
        }
        i = i + 1;
    }
    assert(text::texts(names@).len() == names@.len());
    false
}

/// The files and directories of a workload, in order.
pub open spec fn items_of(workload: Workload) -> Seq<Item> {
    workload.small@.map_values(|e: Entry| file_item(e)) + workload.large@.map_values(
        |e: Entry| file_item(e),
    ) + workload.directories@.map_values(|d: DirEntry| dir_item(d))
}

pub open spec fn file_item(entry: Entry) -> Item {
    Item { path: entry.path, relative_path: entry.relative_path, size: Some(entry.size) }
}

pub open spec fn dir_item(dir: DirEntry) -> Item {
    Item { path: dir.path, relative_path: dir.relative_path, size: None }
}

fn list_items(workload: &Workload) -> (r: Vec<Item>)
    ensures
        r@ == items_of(*workload),
{
    let mut items: Vec<Item> = Vec::new();
    let ghost small = workload.small@.map_values(|e: Entry| file_item(e));
    let ghost large = workload.large@.map_values(|e: Entry| file_item(e));
    let ghost directories = workload.directories@.map_values(|d: DirEntry| dir_item(d));
    let mut i: usize = 0;
    while i < workload.small.len()
        invariant
            i <= workload.small@.len(),
            small == workload.small@.map_values(|e: Entry| file_item(e)),
            items@ == small.take(i as int),
        decreases workload.small@.len() - i,
    {
        let e = &workload.small[i];
        items.push(
            Item {
                path: e.path.clone(),
                relative_path: e.relative_path.clone(),
                size: Some(e.size),
            },
        );
        assert(items@ =~= small.take(i + 1));
        i = i + 1;
    }
    assert(items@ =~= small);
    let mut j: usize = 0;
    assert(items@ =~= small + large.take(0));
    while j < workload.large.len()
        invariant
            j <= workload.large@.len(),
            large == workload.large@.map_values(|e: Entry| file_item(e)),
            items@ == small + large.take(j as int),
        decreases workload.large@.len() - j,
    {
        let e = &workload.large[j];
        items.push(
            Item {
                path: e.path.clone(),
                relative_path: e.relative_path.clone(),
                size: Some(e.size),
            },
        );
        assert(items@ =~= small + large.take(j + 1));
        j = j + 1;
    }
    let mut k: usize = 0;
    assert(large.take(large.len() as int) =~= large);
    assert(items@ =~= small + large + directories.take(0));
    while k < workload.directories.len()
        invariant
            k <= workload.directories@.len(),
            directories == workload.directories@.map_values(|d: DirEntry| dir_item(d)),
            items@ == small + large + directories.take(k as int),
        decreases workload.directories@.len() - k,
    {
        let d = &workload.directories[k];
        items.push(
            Item { path: d.path.clone(), relative_path: d.relative_path.clone(), size: None },
        );
        assert(items@ =~= small + large + directories.take(k + 1));
        k = k + 1;
    }
    assert(directories.take(directories.len() as int) =~= directories);
    items
}

/// The first two items that have one folded name.
#[derive(Debug, Clone, Copy, PartialEq, Eq, Structural)]
struct FirstTwo {
    first: usize,
    second: Option<usize>,
}

/// Whether `pair` holds the first two of the first `count` items that have that name.
spec fn are_first_two(items: Seq<Item>, count: int, name: Seq<char>, pair: FirstTwo) -> bool {
    let first = pair.first as int;
    &&& 0 <= first < count
    &&& folded(items[first]) == name
    &&& forall|k: int| 0 <= k < first ==> folded(#[trigger] items[k]) != name
    &&& match pair.second {
        Some(second) => {
            &&& first < second < count
            &&& folded(items[second as int]) == name
            &&& forall|k: int| first < k < second ==> folded(#[trigger] items[k]) != name
        },
        None => forall|k: int| first < k < count ==> folded(#[trigger] items[k]) != name,
    }
}

spec fn indexes(map: Map<Seq<char>, FirstTwo>, items: Seq<Item>, count: int) -> bool {
    &&& forall|name: Seq<char>| #[trigger]
        map.contains_key(name) ==> are_first_two(items, count, name, map[name])
    &&& forall|k: int| 0 <= k < count ==> map.contains_key(folded(#[trigger] items[k]))
}

fn fold(item: &Item) -> (r: String)
    ensures
        r@ == folded(*item),
{
    let normal = normalize_for_comparison(&item.relative_path);
    to_lowercase(normal.text.as_str())
}

fn index_items(items: &Vec<Item>) -> (r: StringHashMap<FirstTwo>)
    ensures
        indexes(r@, items@, items@.len() as int),
{
    let mut map: StringHashMap<FirstTwo> = StringHashMap::new();
    let mut i: usize = 0;
    while i < items.len()
        invariant
            i <= items@.len(),
            indexes(map@, items@, i as int),
        decreases items@.len() - i,
    {
        let name = fold(&items[i]);
        let ghost before = map@;
        let pair = match map.get(name.as_str()) {
            Some(pair) => match pair.second {
                Some(_) => *pair,
                None => FirstTwo { first: pair.first, second: Some(i) },
            },
            None => FirstTwo { first: i, second: None },
        };
        proof {
            if before.contains_key(name@) {
                assert(are_first_two(items@, i as int, name@, before[name@]));
            } else {
                assert forall|k: int| 0 <= k < i implies folded(#[trigger] items@[k]) != name@ by {
                    assert(before.contains_key(folded(items@[k])));
                }
            }
            assert(are_first_two(items@, i + 1, name@, pair));
        }
        map.insert(name, pair);
        proof {
            assert forall|n: Seq<char>| #[trigger] map@.contains_key(n) implies are_first_two(
                items@,
                i + 1,
                n,
                map@[n],
            ) by {
                if n != name@ {
                    assert(before.contains_key(n));
                    assert(are_first_two(items@, i as int, n, before[n]));
                }
            }
            assert forall|k: int| 0 <= k < i + 1 implies map@.contains_key(
                folded(#[trigger] items@[k]),
            ) by {
                if k < i {
                    assert(before.contains_key(folded(items@[k])));
                }
            }
        }
        i = i + 1;
    }
    map
}

proof fn lemma_collision_is_unique(items: Seq<Item>, i: int, a: int, b: int)
    requires
        collides(items, i, a),
        collides(items, i, b),
    ensures
        a == b,
{
    if a < b {
        assert(folded(items[a]) != folded(items[i]));
    }
    if b < a {
        assert(folded(items[b]) != folded(items[i]));
    }
}

/// The first of the other items that the one at `i` collides with.
fn find_collision(items: &Vec<Item>, index: &StringHashMap<FirstTwo>, i: usize) -> (r: Option<usize>)
    requires
        indexes(index@, items@, items@.len() as int),
        i < items@.len(),
    ensures
        match r {
            Some(j) => collision(items@, i as int) == Some(j as int),
            None => collision(items@, i as int) is None,
        },
        r matches Some(j) ==> j < items@.len(),
{
    let name = fold(&items[i]);
    let found = index.get(name.as_str());
    assert(index@.contains_key(folded(items@[i as int])));
    let pair = match found {
        Some(pair) => *pair,
        None => {
            assert(false);
            FirstTwo { first: 0, second: None }
        },
    };
    assert(are_first_two(items@, items@.len() as int, name@, pair));
    let other = if pair.first == i {
        pair.second
    } else {
        Some(pair.first)
    };
    proof {
        match other {
            Some(j) => {
                assert(collides(items@, i as int, j as int));
                assert(collision(items@, i as int) is Some);
                lemma_collision_is_unique(
                    items@,
                    i as int,
                    j as int,
                    collision(items@, i as int)->0,
                );
            },
            None => {
                assert forall|j: int| !collides(items@, i as int, j) by {
                    if 0 <= j < items@.len() && j != i {
                        assert(folded(items@[j]) != name@);
                    }
                }
            },
        }
    }
    other
}

/// Why the item at `i` cannot be created at the destination.
fn judge(
    items: &Vec<Item>,
    index: &StringHashMap<FirstTwo>,
    i: usize,
    caps: &FilesystemCapabilities,
) -> (r: Option<Error>)
    requires
        indexes(index@, items@, items@.len() as int),
        i < items@.len(),
    ensures
        r == verdict(items@, i as int, *caps),
{
    let item = &items[i];
    if !caps.case_sensitive {
        if let Some(j) = find_collision(items, index, i) {
            return Some(
                Error::CaseCollision { path: item.path.clone(), other: items[j].path.clone() },
            );
        }
    }
    if let (Some(max), Some(size)) = (caps.max_file_size, item.size) {
        if size > max {
            return Some(Error::FileTooLargeForDest { path: item.path.clone(), size, max });
        }
    }
    if caps.windows_naming_rules && check_names(item) {
        return Some(Error::ReservedName { path: item.path.clone() });
    }
    None
}

/// The verdicts on `count` items from `start` on.
pub open spec fn verdicts_from(
    items: Seq<Item>,
    start: int,
    count: nat,
    caps: FilesystemCapabilities,
) -> Seq<Option<Error>> {
    Seq::new(count, |i: int| verdict(items, start + i, caps))
}

fn judge_from(
    items: &Vec<Item>,
    index: &StringHashMap<FirstTwo>,
    start: usize,
    count: usize,
    caps: &FilesystemCapabilities,
) -> (r: Vec<Option<Error>>)
    requires
        indexes(index@, items@, items@.len() as int),
        start + count <= items@.len(),
    ensures
        r@ == verdicts_from(items@, start as int, count as nat, *caps),
{
    let mut out: Vec<Option<Error>> = Vec::with_capacity(count);
    let mut i: usize = 0;
    assert(items@.len() == items.len());
    while i < count
        invariant
            i <= count,
            start + count <= items@.len() <= usize::MAX,
            indexes(index@, items@, items@.len() as int),
            out@ == verdicts_from(items@, start as int, i as nat, *caps),
        decreases count - i,
    {
        out.push(judge(items, index, start + i, caps));
        assert(out@ =~= verdicts_from(items@, start as int, (i + 1) as nat, *caps));
        i = i + 1;
    }
    out
}

/// Whether a workload was parted into what the destination can hold and what it cannot.
pub open spec fn parts(
    workload: Workload,
    caps: FilesystemCapabilities,
    kept: Workload,
    validation: Validation,
) -> bool {
    let items = items_of(workload);
    let s = workload.small@.len();
    let l = workload.large@.len();
    let small = verdicts_from(items, 0, s, caps);
    let large = verdicts_from(items, s as int, l, caps);
    let directories = verdicts_from(items, (s + l) as int, workload.directories@.len(), caps);
    &&& kept.small@ == accepted(workload.small@, small)
    &&& kept.large@ == accepted(workload.large@, large)
    &&& kept.directories@ == accepted(workload.directories@, directories)
    &&& validation.rejected_entries@ == rejected(workload.small@, small) + rejected(
        workload.large@,
        large,
    )
    &&& validation.rejected_directories@ == rejected(workload.directories@, directories)
}

/// Checks a workload against its destination before anything is written. A destination that
/// is known to damage files is refused as a whole, unless the caller takes the risk.
/// Everything else is a matter of single files and directories: these are taken out of the
/// workload and reported.
pub fn validate(workload: Workload, caps: &FilesystemCapabilities, allow_risk: bool) -> (r: Result<
    (Workload, Validation),
    Error,
>)
    ensures
        r is Err <==> caps.write_integrity_risk && !allow_risk,
        match r {
            Err(error) => caps.write_integrity_risk && !allow_risk && error == (
            Error::FilesystemIntegrityRisk { filesystem: caps.name }),
            Ok((kept, validation)) => !(caps.write_integrity_risk && !allow_risk) && parts(
                workload,
                *caps,
                kept,
                validation,
            ),
        },
{
    if caps.write_integrity_risk && !allow_risk {
        return Err(Error::FilesystemIntegrityRisk { filesystem: caps.name.clone() });
    }
    let items = list_items(&workload);
    let index = index_items(&items);
    assert(items@.len() == items.len());
    let s: usize = workload.small.len();
    let l: usize = workload.large.len();
    let d: usize = workload.directories.len();
    let small_verdicts = judge_from(&items, &index, 0, s, caps);
    let large_verdicts = judge_from(&items, &index, s, l, caps);
    let directory_verdicts = judge_from(&items, &index, s + l, d, caps);
    let (small, mut rejected_entries) = sift(workload.small, small_verdicts);
    let (large, mut rejected_large) = sift(workload.large, large_verdicts);
    let (directories, rejected_directories) = sift(workload.directories, directory_verdicts);
    rejected_entries.append(&mut rejected_large);
    Ok(
        (
            Workload { small, large, directories },
            Validation { rejected_entries, rejected_directories },
        ),
    )
}

proof fn lemma_sift_keeps_all(list: Seq<Entry>, verdicts: Seq<Option<Error>>)
    ensures
        accepted(list, verdicts).to_multiset().add(
            dispatcher::failed_entries(rejected(list, verdicts)).to_multiset(),
        ) == list.to_multiset(),
    decreases list.len(),
{
    broadcast use vstd::seq_lib::group_to_multiset_ensures;

    if list.len() == 0 {
        assert(dispatcher::failed_entries(rejected(list, verdicts)) =~= Seq::<Entry>::empty());
        assert(list =~= Seq::<Entry>::empty());
        assert(accepted(list, verdicts).to_multiset().add(
            dispatcher::failed_entries(rejected(list, verdicts)).to_multiset(),
        ) =~= list.to_multiset());
    } else {
        let front = list.drop_last();
        let entry = list.last();
        lemma_sift_keeps_all(front, verdicts);
        let kept = accepted(front, verdicts);
        let out = dispatcher::failed_entries(rejected(front, verdicts));
        assert(list =~= front.push(entry));
        if verdicts[list.len() - 1] is Some {
            assert(dispatcher::failed_entries(rejected(list, verdicts)) =~= out.push(entry));
            assert(kept.to_multiset().add(out.push(entry).to_multiset()) =~= list.to_multiset());
        } else {
            assert(dispatcher::failed_entries(rejected(list, verdicts)) =~= out);
            assert(kept.push(entry).to_multiset().add(out.to_multiset()) =~= list.to_multiset());
        }
    }
}

/// The check loses no file and reports none twice: each is kept in the workload or is
/// turned down.
pub proof fn lemma_check_loses_no_file(
    workload: Workload,
    caps: FilesystemCapabilities,
    kept: Workload,
    validation: Validation,
)
    requires
        parts(workload, caps, kept, validation),
    ensures
        kept.small@.to_multiset().add(kept.large@.to_multiset()).add(
            dispatcher::failed_entries(validation.rejected_entries@).to_multiset(),
        ) == workload.small@.to_multiset().add(workload.large@.to_multiset()),
{
    let items = items_of(workload);
    let s = workload.small@.len();
    let small = verdicts_from(items, 0, s, caps);
    let large = verdicts_from(items, s as int, workload.large@.len(), caps);
    let out_small = dispatcher::failed_entries(rejected(workload.small@, small));
    let out_large = dispatcher::failed_entries(rejected(workload.large@, large));
    lemma_sift_keeps_all(workload.small@, small);
    lemma_sift_keeps_all(workload.large@, large);
    assert(dispatcher::failed_entries(validation.rejected_entries@) =~= out_small + out_large);
    vstd::seq_lib::lemma_multiset_commutative(out_small, out_large);
    assert(kept.small@.to_multiset().add(kept.large@.to_multiset()).add(
        out_small.to_multiset().add(out_large.to_multiset()),
    ) =~= workload.small@.to_multiset().add(workload.large@.to_multiset()));
}

/// Of items that a destination takes for one, none is created, not even the first.
pub proof fn lemma_both_sides_of_a_collision_are_rejected(
    items: Seq<Item>,
    i: int,
    j: int,
    caps: FilesystemCapabilities,
)
    requires
        0 <= i < j < items.len(),
        folded(items[i]) == folded(items[j]),
        !caps.case_sensitive,
    ensures
        verdict(items, i, caps) matches Some(Error::CaseCollision { .. }),
        verdict(items, j, caps) matches Some(Error::CaseCollision { .. }),
{
    lemma_some_collision(items, i, j, 0);
    lemma_some_collision(items, j, i, 0);
}

/// Where another item has the same folded name, there is a first one.
proof fn lemma_some_collision(items: Seq<Item>, i: int, j: int, from: int)
    requires
        0 <= i < items.len(),
        0 <= from <= j < items.len(),
        i != j,
        folded(items[i]) == folded(items[j]),
        forall|k: int| 0 <= k < from && k != i ==> folded(#[trigger] items[k]) != folded(items[i]),
    ensures
        collision(items, i) is Some,
    decreases j - from,
{
    if from != i && folded(items[from]) == folded(items[i]) {
        assert(collides(items, i, from));
    } else if from < j {
        lemma_some_collision(items, i, j, from + 1);
    }
}

/// A destination without limits takes everything.
pub proof fn lemma_unlimited_destination_takes_everything(
    items: Seq<Item>,
    i: int,
    caps: FilesystemCapabilities,
)
    requires
        caps.case_sensitive,
        caps.max_file_size is None,
        !caps.windows_naming_rules,
    ensures
        verdict(items, i, caps) is None,
{
}

/// What is let through can be created: no other item takes its name, it is not larger than
/// the destination can hold, and no name of it is reserved. And what can be created is let
/// through.
pub proof fn lemma_accepted_item_can_be_created(
    items: Seq<Item>,
    i: int,
    caps: FilesystemCapabilities,
)
    requires
        0 <= i < items.len(),
    ensures
        verdict(items, i, caps) is None <==> {
            &&& caps.case_sensitive || forall|j: int|
                0 <= j < items.len() && j != i ==> folded(#[trigger] items[j]) != folded(items[i])
            &&& caps.max_file_size is Some && items[i].size is Some ==> items[i].size->0
                <= caps.max_file_size->0
            &&& caps.windows_naming_rules ==> forall|k: int|
                0 <= k < items[i].relative_path@.names.len() ==> !is_reserved(
                    #[trigger] items[i].relative_path@.names[k],
                )
        },
{
    if collision(items, i) is None {
        assert forall|j: int| 0 <= j < items.len() && j != i implies folded(#[trigger] items[j])
            != folded(items[i]) by {
            if folded(items[j]) == folded(items[i]) {
                lemma_some_collision(items, i, j, 0);
            }
        }
    } else {
        let j = choose|j: int| collides(items, i, j);
        assert(folded(items[j]) == folded(items[i]));
    }
}

/// What is turned down is told why, and about itself: a collision names another item that has
/// the same name but for case, and a file that is too large both sizes.
pub proof fn lemma_verdict_tells_why(items: Seq<Item>, i: int, caps: FilesystemCapabilities)
    requires
        0 <= i < items.len(),
    ensures
        match verdict(items, i, caps) {
            None => true,
            Some(Error::CaseCollision { path, other }) => path == items[i].path
                && !caps.case_sensitive && exists|j: int|
                0 <= j < items.len() && j != i && (#[trigger] items[j]).path == other && folded(
                    items[j],
                ) == folded(items[i]),
            Some(Error::FileTooLargeForDest { path, size, max }) => path == items[i].path
                && items[i].size == Some(size) && caps.max_file_size == Some(max) && size > max,
            Some(Error::ReservedName { path }) => path == items[i].path && caps.windows_naming_rules
                && exists|k: int|
                0 <= k < items[i].relative_path@.names.len() && is_reserved(
                    #[trigger] items[i].relative_path@.names[k],
                ),
            Some(_) => false,
        },
{
    if collision(items, i) is Some {
        let j = choose|j: int| collides(items, i, j);
        assert(items[j].path == items[collision(items, i)->0].path);
    }
}

/// A directory is never too large.
pub proof fn lemma_directory_is_never_too_large(
    items: Seq<Item>,
    i: int,
    caps: FilesystemCapabilities,
)
    requires
        0 <= i < items.len(),
        items[i].size is None,
    ensures
        !(verdict(items, i, caps) matches Some(Error::FileTooLargeForDest { .. })),
{
}

proof fn lemma_sifted<T>(list: Seq<T>, verdicts: Seq<Option<Error>>, i: int)
    requires
        0 <= i < list.len(),
    ensures
        verdicts[i] is None ==> accepted(list, verdicts).contains(list[i]),
        verdicts[i] matches Some(error) ==> rejected(list, verdicts).contains((list[i], error)),
    decreases list.len(),
{
    let front = list.drop_last();
    let kept = accepted(list, verdicts);
    let out = rejected(list, verdicts);
    if i == list.len() - 1 {
        if verdicts[i] is None {
            assert(kept[kept.len() - 1] == list[i]);
        } else {
            assert(out[out.len() - 1] == (list[i], verdicts[i]->0));
        }
    } else {
        lemma_sifted(front, verdicts, i);
        if verdicts[i] is None {
            let before = accepted(front, verdicts);
            let k = choose|k: int| 0 <= k < before.len() && before[k] == front[i];
            assert(kept[k] == list[i]);
        } else {
            let before = rejected(front, verdicts);
            let k = choose|k: int|
                0 <= k < before.len() && before[k] == (front[i], verdicts[i]->0);
            assert(out[k] == (list[i], verdicts[i]->0));
        }
    }
}

/// Each file of a workload goes where its verdict says: it stays in the workload, or it is
/// reported with the reason. Small and large files are checked against each other too.
pub proof fn lemma_files_go_where_their_verdicts_say(
    workload: Workload,
    caps: FilesystemCapabilities,
    kept: Workload,
    validation: Validation,
    i: int,
)
    requires
        parts(workload, caps, kept, validation),
    ensures
        0 <= i < workload.small@.len() ==> match verdict(items_of(workload), i, caps) {
            None => kept.small@.contains(workload.small@[i]),
            Some(error) => validation.rejected_entries@.contains((workload.small@[i], error)),
        },
        0 <= i < workload.large@.len() ==> match verdict(
            items_of(workload),
            workload.small@.len() + i,
            caps,
        ) {
            None => kept.large@.contains(workload.large@[i]),
            Some(error) => validation.rejected_entries@.contains((workload.large@[i], error)),
        },
        0 <= i < workload.directories@.len() ==> match verdict(
            items_of(workload),
            workload.small@.len() + workload.large@.len() + i,
            caps,
        ) {
            None => kept.directories@.contains(workload.directories@[i]),
            Some(error) => validation.rejected_directories@.contains(
                (workload.directories@[i], error),
            ),
        },
{
    let items = items_of(workload);
    let s = workload.small@.len();
    let l = workload.large@.len();
    let small = verdicts_from(items, 0, s, caps);
    let large = verdicts_from(items, s as int, l, caps);
    let directories = verdicts_from(items, (s + l) as int, workload.directories@.len(), caps);
    let a = rejected(workload.small@, small);
    let b = rejected(workload.large@, large);
    if 0 <= i < s {
        lemma_sifted(workload.small@, small, i);
        if small[i] is Some {
            let pair = (workload.small@[i], small[i]->0);
            let k = choose|k: int| 0 <= k < a.len() && a[k] == pair;
            assert((a + b)[k] == pair);
        }
    }
    if 0 <= i < l {
        lemma_sifted(workload.large@, large, i);
        if large[i] is Some {
            let pair = (workload.large@[i], large[i]->0);
            let k = choose|k: int| 0 <= k < b.len() && b[k] == pair;
            assert((a + b)[a.len() + k] == pair);
        }
    }
    if 0 <= i < workload.directories@.len() {
        lemma_sifted(workload.directories@, directories, i);
    }
}

/// Each file and directory is checked as what it is.
pub proof fn lemma_every_item_is_checked(workload: Workload, i: int)
    ensures
        items_of(workload).len() == workload.small@.len() + workload.large@.len()
            + workload.directories@.len(),
        0 <= i < workload.small@.len() ==> {
            let item = items_of(workload)[i];
            item.path == workload.small@[i].path && item.relative_path
                == workload.small@[i].relative_path && item.size == Some(workload.small@[i].size)
        },
        0 <= i < workload.large@.len() ==> {
            let item = items_of(workload)[workload.small@.len() + i];
            item.path == workload.large@[i].path && item.relative_path
                == workload.large@[i].relative_path && item.size == Some(workload.large@[i].size)
        },
        0 <= i < workload.directories@.len() ==> {
            let item = items_of(workload)[workload.small@.len() + workload.large@.len() + i];
            item.path == workload.directories@[i].path && item.relative_path
                == workload.directories@[i].relative_path && item.size is None
        },
{
}

proof fn lemma_stem_up_to_the_dot(front: Seq<char>, rest: Seq<char>)
    requires
        !front.contains('.'),
    ensures
        stem(front + seq!['.'] + rest) == front,
        stem(front) == front,
    decreases front.len(),
{
    let whole = front + seq!['.'] + rest;
    if front.len() == 0 {
        assert(whole[0] == '.');
        assert(stem(whole) =~= front);
        assert(stem(front) =~= front);
    } else {
        let tail = front.skip(1);
        assert(front[0] != '.') by {
            assert(front.contains(front[0]));
        }
        assert forall|c: char| tail.contains(c) implies front.contains(c) by {
            let k = choose|k: int| 0 <= k < tail.len() && tail[k] == c;
            assert(front[k + 1] == c);
        }
        lemma_stem_up_to_the_dot(tail, rest);
        assert(whole.skip(1) =~= tail + seq!['.'] + rest);
        assert(stem(whole) =~= front);
        assert(stem(front) =~= front);
    }
}

/// The name of a device stays reserved whatever extension follows it, and whatever the case
/// of its letters is.
pub proof fn lemma_device_is_reserved_with_any_extension(device: Seq<char>, extension: Seq<char>)
    requires
        !device.contains('.'),
        is_device(text::lowered(device)),
    ensures
        is_reserved(device),
        is_reserved(device + seq!['.'] + extension),
{
    lemma_stem_up_to_the_dot(device, extension);
}

/// A character that is forbidden makes a name reserved wherever it stands, and so does a dot
/// or a space at the end.
pub proof fn lemma_forbidden_character_makes_a_name_reserved(
    front: Seq<char>,
    c: char,
    rest: Seq<char>,
)
    ensures
        is_forbidden(c) ==> is_reserved(front.push(c) + rest),
        c == '.' || c == ' ' ==> is_reserved(front.push(c)),
        (c as u32) < 32 || seq!['<', '>', ':', '"', '|', '?', '*', '\\'].contains(c) <==> is_forbidden(
            c,
        ),
{
    let name = front.push(c) + rest;
    assert(name[front.len() as int] == c);
    let listed = seq!['<', '>', ':', '"', '|', '?', '*', '\\'];
    assert(listed[0] == '<' && listed[1] == '>' && listed[2] == ':' && listed[3] == '"' && listed[4]
        == '|' && listed[5] == '?' && listed[6] == '*' && listed[7] == '\\');
}

/// A name that is no device, holds no forbidden character and ends with neither a dot nor a
/// space is taken.
pub proof fn lemma_ordinary_name_is_taken(name: Seq<char>)
    requires
        name.len() > 0,
        !is_device(text::lowered(stem(name))),
        forall|i: int| 0 <= i < name.len() ==> !is_forbidden(#[trigger] name[i]),
        name.last() != '.',
        name.last() != ' ',
    ensures
        !is_reserved(name),
{
}

/// The devices are the four with a fixed name and the ports with one digit but 0; none has a
/// longer name.
pub proof fn lemma_devices_are_the_known_names(name: Seq<char>, number: nat)
    ensures
        is_device("con"@) && is_device("prn"@) && is_device("aux"@) && is_device("nul"@),
        1 <= number <= 9 ==> is_device("com"@.push(text::digit(number))) && is_device(
            "lpt"@.push(text::digit(number)),
        ),
        is_device(name) ==> name.len() == 3 || name.len() == 4,
        is_device(name) && name.len() == 4 ==> (name.take(3) == "com"@ || name.take(3) == "lpt"@)
            && '1' <= name[3] <= '9',
        is_device(name) && name.len() == 3 ==> name == "con"@ || name == "prn"@ || name == "aux"@
            || name == "nul"@,
{
    reveal_strlit("con");
    reveal_strlit("prn");
    reveal_strlit("aux");
    reveal_strlit("nul");
    reveal_strlit("com");
    reveal_strlit("lpt");
    if 1 <= number <= 9 {
        assert("com"@ + text::decimal(number) =~= "com"@.push(text::digit(number)));
        assert("lpt"@ + text::decimal(number) =~= "lpt"@.push(text::digit(number)));
        assert(is_port("com"@.push(text::digit(number)), number));
        assert(is_port("lpt"@.push(text::digit(number)), number));
    }
    if exists|n: nat| 1 <= n <= 9 && #[trigger] is_port(name, n) {
        let n = choose|n: nat| 1 <= n <= 9 && #[trigger] is_port(name, n);
        text::lemma_decimal_reads_back(n);
        assert(text::decimal(n) == seq![text::digit(n)]);
        assert(text::digit(n) as u32 == 48 + n) by {
            assert((48 + n) as u8 == 48 + n);
        }
        if name == "com"@ + text::decimal(n) {
            assert(name.take(3) =~= "com"@);
        } else {
            assert(name.take(3) =~= "lpt"@);
        }
        assert(name[3] == text::digit(n));
    }
}

} // verus!
