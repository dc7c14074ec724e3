use vstd::prelude::*;

use crate::paths::FilePath;
use crate::progress::Progress;
use crate::text;

verus! {

/// Files of at most this many bytes are small, where the caller sets no threshold.
pub const DEFAULT_SMALL_FILE_THRESHOLD: u64 = 262144;

/// Up to which size files are small: as the caller says, or else by default.
pub fn resolved_threshold(set: Option<u64>) -> (r: u64)
    ensures
        r == match set {
            Some(bytes) => bytes,
            None => DEFAULT_SMALL_FILE_THRESHOLD,
        },
        set is Some ==> r == set->0,
{
    match set {
        Some(bytes) => bytes,
        None => DEFAULT_SMALL_FILE_THRESHOLD,
    }
}

/// How many nanoseconds a second has.
pub const NANOS_PER_SEC: i128 = 1_000_000_000;

/// A point in time: seconds from the Unix epoch on, and the nanoseconds behind
/// them.
#[derive(Debug, Clone, Copy, PartialEq, Eq, Structural)]
pub struct Timestamp {
    pub secs: i64,
    pub nanos: u32,
}

/// A length of time.
#[derive(Debug, Clone, Copy, PartialEq, Eq, Structural)]
pub struct Span {
    pub secs: u64,
    pub nanos: u32,
}

impl Timestamp {
    /// Nanoseconds from the Unix epoch on.
    pub open spec fn at(self) -> int {
        self.secs * NANOS_PER_SEC + self.nanos
    }

    /// Nanoseconds from the Unix epoch on.
    pub fn as_nanos(&self) -> (r: i128)
        ensures
            r == self.at(),
    {
        self.secs as i128 * NANOS_PER_SEC + self.nanos as i128
    }
}

impl Span {
    /// The length in nanoseconds.
    pub open spec fn length(self) -> int {
        self.secs * NANOS_PER_SEC + self.nanos
    }

    /// The length in nanoseconds.
    pub fn as_nanos(&self) -> (r: i128)
        ensures
            r == self.length(),
            r >= 0,
    {
        self.secs as i128 * NANOS_PER_SEC + self.nanos as i128
    }
}

/// One file that an operation works on.
#[derive(Debug)]
pub struct Entry {
    pub path: FilePath,
    pub relative_path: FilePath,
    pub size: u64,
    /// `None` where the file system reports no modification time.
    pub modified: Option<Timestamp>,
}

impl Clone for Entry {
    fn clone(&self) -> (r: Self)
        ensures
            r == *self,
    {
        Entry {
            path: self.path.clone(),
            relative_path: self.relative_path.clone(),
            size: self.size,
            modified: self.modified,
        }
    }
}

/// One directory of the scanned tree. Its relative path is empty for the root.
#[derive(Debug)]
pub struct DirEntry {
    pub path: FilePath,
    pub relative_path: FilePath,
    /// The permission bits, where the platform has them.
    pub mode: Option<u32>,
}

impl Clone for DirEntry {
    fn clone(&self) -> (r: Self)
        ensures
            r == *self,
    {
        DirEntry {
            path: self.path.clone(),
            relative_path: self.relative_path.clone(),
            mode: self.mode,
        }
    }
}

/// What a scan found: files that are batched, files that are streamed one by one,
/// and directories.
#[derive(Debug)]
pub struct Workload {
    pub small: Vec<Entry>,
    pub large: Vec<Entry>,
    pub directories: Vec<DirEntry>,
}

/// What the file system of a destination can hold.
#[derive(Debug)]
pub struct FilesystemCapabilities {
    pub name: String,
    pub case_sensitive: bool,
    pub max_file_size: Option<u64>,
    pub windows_naming_rules: bool,
    /// The least difference of two modification times that it can tell.
    pub timestamp_granularity: Span,
    /// Whether files written to it are known to get damaged on this platform.
    pub write_integrity_risk: bool,
}

/// The families of file systems that limit what a destination can hold.
#[derive(Debug, Clone, Copy, PartialEq, Eq, Structural)]
pub enum FilesystemFamily {
    Fat,
    ExFat,
    Ntfs,
    Other,
}

/// The largest file that FAT can hold.
pub const FAT_MAX_FILE_SIZE: u64 = 4294967295;

/// The family that a name in lower case belongs to.
pub open spec fn family_named(name: Seq<char>) -> FilesystemFamily {
    if name == "fat"@ || name == "fat32"@ || name == "vfat"@ || name == "msdos"@ {
        FilesystemFamily::Fat
    } else if name == "exfat"@ {
        FilesystemFamily::ExFat
    } else if name == "ntfs"@ || name == "ntfs3"@ {
        FilesystemFamily::Ntfs
    } else {
        FilesystemFamily::Other
    }
}

/// The family of the file system that the platform calls `name`; case does not matter.
pub fn family_of(name: &str) -> (r: FilesystemFamily)
    ensures
        r == family_named(text::lowered(name@)),
{
    let lower = text::to_lower(name);
    let lower = lower.as_str();
    if text::same(lower, "fat") || text::same(lower, "fat32") || text::same(lower, "vfat")
        || text::same(lower, "msdos") {
        FilesystemFamily::Fat
    } else if text::same(lower, "exfat") {
        FilesystemFamily::ExFat
    } else if text::same(lower, "ntfs") || text::same(lower, "ntfs3") {
        FilesystemFamily::Ntfs
    } else {
        FilesystemFamily::Other
    }
}

impl FilesystemCapabilities {
    /// Whether these are the capabilities of the file system called `name`.
    pub open spec fn are_those_of(self, name: Seq<char>, macos: bool) -> bool {
        let family = family_named(text::lowered(name));
        &&& self.case_sensitive == (family == FilesystemFamily::Other)
        &&& self.windows_naming_rules == (family != FilesystemFamily::Other)
        &&& self.max_file_size == if family == FilesystemFamily::Fat {
            Some(FAT_MAX_FILE_SIZE)
        } else {
            None
        }
        &&& self.timestamp_granularity.length() == if family == FilesystemFamily::Fat || family
            == FilesystemFamily::ExFat {
            2 * NANOS_PER_SEC
        } else {
            0
        }
        &&& self.write_integrity_risk == (family == FilesystemFamily::ExFat && macos)
    }

    /// What the file system called `name` can hold. Windows' naming rules go by the kind
    /// of the file system and not by the host that writes to it. The two kinds of FAT tell
    /// modification times two seconds apart, and exFAT is known to damage files that are
    /// written on macOS.
    pub fn of(name: &str, macos: bool) -> (r: FilesystemCapabilities)
        ensures
            r.name@ == name@,
            r.are_those_of(name@, macos),
    {
        let family = family_of(name);
        let limited = family != FilesystemFamily::Other;
        let coarse = family == FilesystemFamily::Fat || family == FilesystemFamily::ExFat;
        FilesystemCapabilities {
            name: name.to_owned(),
            case_sensitive: !limited,
            max_file_size: if family == FilesystemFamily::Fat {
                Some(FAT_MAX_FILE_SIZE)
            } else {
                None
            },
            windows_naming_rules: limited,
            timestamp_granularity: Span {
                secs: if coarse {
                    2
                } else {
                    0
                },
                nanos: 0,
            },
            write_integrity_risk: family == FilesystemFamily::ExFat && macos,
        }
    }
}

/// The sum of the sizes of `entries`.
pub open spec fn sizes_sum(entries: Seq<Entry>) -> int
    decreases entries.len(),
{
    if entries.len() == 0 {
        0
    } else {
        sizes_sum(entries.drop_last()) + entries.last().size
    }
}

pub(crate) proof fn lemma_sizes_sum_grows(entries: Seq<Entry>, count: int)
    requires
        0 <= count <= entries.len(),
    ensures
        sizes_sum(entries.take(count)) <= sizes_sum(entries),
    decreases entries.len() - count,
{
    if count < entries.len() {
        lemma_sizes_sum_grows(entries, count + 1);
        assert(entries.take(count + 1).drop_last() =~= entries.take(count));
    } else {
        assert(entries.take(count) =~= entries);
    }
}

/// The sum of the sizes of `entries`, or `None` where it is too large to be counted.
pub fn total_size(entries: &Vec<Entry>) -> (r: Option<u64>)
    ensures
        match r {
            Some(bytes) => bytes == sizes_sum(entries@),
            None => sizes_sum(entries@) > u64::MAX,
        },
{
    let mut bytes: u64 = 0;
    let mut i: usize = 0;
    assert(entries@.take(0) =~= Seq::<Entry>::empty());
    while i < entries.len()
        invariant
            i <= entries@.len(),
            bytes == sizes_sum(entries@.take(i as int)),
        decreases entries@.len() - i,
    {
        proof {
            assert(entries@.take(i + 1).drop_last() =~= entries@.take(i as int));
            lemma_sizes_sum_grows(entries@, i + 1);
        }
        match bytes.checked_add(entries[i].size) {
            Some(sum) => {
                bytes = sum;
            },
            None => {
                return None;
            },
        }
        i = i + 1;
    }
    assert(entries@.take(entries@.len() as int) =~= entries@);
    Some(bytes)
}

/// The event that announces what a workload is made of.
pub open spec fn announced(workload: Workload, threshold: u64) -> Option<Progress> {
    if sizes_sum(workload.small@) > u64::MAX || sizes_sum(workload.large@) > u64::MAX {
        None
    } else {
        Some(
            Progress::Planned {
                directories: workload.directories@.len() as usize,
                small_files: workload.small@.len() as usize,
                small_bytes: sizes_sum(workload.small@) as u64,
                large_files: workload.large@.len() as usize,
                large_bytes: sizes_sum(workload.large@) as u64,
                small_file_threshold: threshold,
            },
        )
    }
}

/// Announces what a workload is made of, before any of it is handled. There is no such
/// event where the sizes add up to more than can be counted.
pub fn planned(workload: &Workload, threshold: u64) -> (r: Option<Progress>)
    ensures
        r == announced(*workload, threshold),
{
    match (total_size(&workload.small), total_size(&workload.large)) {
        (Some(small_bytes), Some(large_bytes)) => Some(
            Progress::Planned {
                directories: workload.directories.len(),
                small_files: workload.small.len(),
                small_bytes,
                large_files: workload.large.len(),
                large_bytes,
                small_file_threshold: threshold,
            },
        ),
        _ => None,
    }
}

/// The entries of at most `threshold` bytes, in order.
pub open spec fn small_of(entries: Seq<Entry>, threshold: u64) -> Seq<Entry> {
    entries.filter(|e: Entry| e.size <= threshold)
}

/// The entries of more than `threshold` bytes, in order.
pub open spec fn large_of(entries: Seq<Entry>, threshold: u64) -> Seq<Entry> {
    entries.filter(|e: Entry| e.size > threshold)
}

impl Workload {
    /// Splits `entries` at `threshold`: a file of exactly that size is small.
    pub fn partition(entries: Vec<Entry>, threshold: u64) -> (r: Workload)
        ensures
            r.small@ == small_of(entries@, threshold),
            r.large@ == large_of(entries@, threshold),
            r.directories@.len() == 0,
    {
        let mut small: Vec<Entry> = Vec::new();
        let mut large: Vec<Entry> = Vec::new();
        proof {
            reveal(Seq::filter);
        }
        let ghost all = entries@;
        assert(all.take(0) =~= Seq::<Entry>::empty());
        for entry in it: entries
            invariant
                it.seq() == all,
                small@ == small_of(all.take(it.index()), threshold),
                large@ == large_of(all.take(it.index()), threshold),
        {
            proof {
                reveal(Seq::filter);
                let i = it.index();
                assert(all.take(i + 1).drop_last() =~= all.take(i));
                assert(all.take(i + 1).last() == entry);
            }
            if entry.size <= threshold {
                small.push(entry);
            } else {
                large.push(entry);
            }
        }
        assert(all.take(all.len() as int) =~= all);
        Workload { small, large, directories: Vec::new() }
    }
}

/// A second has a thousand million nanoseconds, and time goes by seconds first: a later
/// second is later whatever the nanoseconds are.
pub proof fn lemma_time_goes_by_seconds_first(a: Timestamp, b: Timestamp)
    requires
        a.nanos < 1_000_000_000,
        b.nanos < 1_000_000_000,
    ensures
        a.secs < b.secs ==> a.at() < b.at(),
        a.secs == b.secs ==> (a.at() < b.at() <==> a.nanos < b.nanos),
        a.at() == b.at() ==> a == b,
        b.secs == a.secs + 1 && a.nanos == b.nanos ==> b.at() - a.at() == 1_000_000_000,
        a.secs == 0 && a.nanos == 0 ==> a.at() == 0,
{
}

/// The same holds of lengths of time.
pub proof fn lemma_length_goes_by_seconds_first(a: Span, b: Span)
    requires
        a.nanos < 1_000_000_000,
        b.nanos < 1_000_000_000,
    ensures
        a.length() >= 0,
        a.secs < b.secs ==> a.length() < b.length(),
        a.secs == b.secs ==> (a.length() < b.length() <==> a.nanos < b.nanos),
        a.length() == b.length() ==> a == b,
        b.secs == a.secs + 1 && a.nanos == b.nanos ==> b.length() - a.length() == 1_000_000_000,
        a.secs == 0 && a.nanos == 0 ==> a.length() == 0,
{
}

/// The sizes of two lists add up to the sizes of both together, and one file adds its own.
pub proof fn lemma_sizes_add_up(a: Seq<Entry>, b: Seq<Entry>)
    ensures
        sizes_sum(a + b) == sizes_sum(a) + sizes_sum(b),
        a.len() == 1 ==> sizes_sum(a) == a[0].size,
        a.len() == 0 ==> sizes_sum(a) == 0,
    decreases b.len(),
{
    reveal_with_fuel(sizes_sum, 2);
    if b.len() == 0 {
        assert(a + b =~= a);
    } else {
        lemma_sizes_add_up(a, b.drop_last());
        assert((a + b).drop_last() =~= a + b.drop_last());
    }
    if a.len() == 1 {
        assert(a.drop_last() =~= Seq::<Entry>::empty());
    }
}

/// A file is small if and only if it is not over the threshold, and large otherwise: a
/// threshold parts the files and loses none.
pub proof fn lemma_threshold_parts_the_files(entries: Seq<Entry>, threshold: u64)
    ensures
        small_of(entries, threshold).to_multiset().add(
            large_of(entries, threshold).to_multiset(),
        ) == entries.to_multiset(),
        forall|i: int|
            0 <= i < small_of(entries, threshold).len() ==> (#[trigger] small_of(
                entries,
                threshold,
            )[i]).size <= threshold,
        forall|i: int|
            0 <= i < large_of(entries, threshold).len() ==> (#[trigger] large_of(
                entries,
                threshold,
            )[i]).size > threshold,
    decreases entries.len(),
{
    broadcast use vstd::seq_lib::group_to_multiset_ensures;

    reveal(Seq::filter);
    if entries.len() == 0 {
        assert(small_of(entries, threshold).to_multiset().add(
            large_of(entries, threshold).to_multiset(),
        ) =~= entries.to_multiset());
    } else {
        let front = entries.drop_last();
        let entry = entries.last();
        lemma_threshold_parts_the_files(front, threshold);
        assert(entries =~= front.push(entry));
        assert(small_of(entries, threshold).to_multiset().add(
            large_of(entries, threshold).to_multiset(),
        ) =~= entries.to_multiset());
        let small = small_of(entries, threshold);
        let large = large_of(entries, threshold);
        assert forall|i: int| 0 <= i < small.len() implies (#[trigger] small[i]).size
            <= threshold by {
            if i < small_of(front, threshold).len() {
                assert(small[i] == small_of(front, threshold)[i]);
            }
        }
        assert forall|i: int| 0 <= i < large.len() implies (#[trigger] large[i]).size > threshold by {
            if i < large_of(front, threshold).len() {
                assert(large[i] == large_of(front, threshold)[i]);
            }
        }
    }
}

/// What is announced of a workload adds up to all of its files and all of their bytes, with
/// the small ones told from the large ones.
pub proof fn lemma_announced_work_is_all_of_it(workload: Workload, threshold: u64)
    requires
        announced(workload, threshold) is Some,
    ensures
        ({
            let event = announced(workload, threshold)->0;
            let files = workload.small@ + workload.large@;
            &&& event is Planned
            &&& event->small_files + event->large_files == files.len()
            &&& event->small_bytes + event->large_bytes == sizes_sum(files)
            &&& event->small_bytes == sizes_sum(workload.small@)
            &&& event->small_files == workload.small@.len()
            &&& event->directories == workload.directories@.len()
            &&& event->small_file_threshold == threshold
        }),
{
    lemma_sizes_add_up(workload.small@, workload.large@);
    lemma_sizes_are_not_negative(workload.small@);
    lemma_sizes_are_not_negative(workload.large@);
    assert(workload.small@.len() == workload.small.len());
    assert(workload.large@.len() == workload.large.len());
    assert(workload.directories@.len() == workload.directories.len());
}

proof fn lemma_sizes_are_not_negative(entries: Seq<Entry>)
    ensures
        sizes_sum(entries) >= 0,
    decreases entries.len(),
{
    if entries.len() > 0 {
        lemma_sizes_are_not_negative(entries.drop_last());
    }
}

/// Case does not matter in the name of a file system. Only a FAT limits the size of a file,
/// and every kind that limits it, or is known to damage files, also keeps to the naming rules
/// of Windows and takes names that differ by case for one.
pub proof fn lemma_capabilities_go_by_the_family(
    a: FilesystemCapabilities,
    b: FilesystemCapabilities,
    x: Seq<char>,
    y: Seq<char>,
    macos: bool,
)
    requires
        a.are_those_of(x, macos),
        b.are_those_of(y, macos),
        text::lowered(x) == text::lowered(y),
    ensures
        a.case_sensitive == b.case_sensitive,
        a.windows_naming_rules == b.windows_naming_rules,
        a.max_file_size == b.max_file_size,
        a.write_integrity_risk == b.write_integrity_risk,
        a.case_sensitive <==> !a.windows_naming_rules,
        a.max_file_size is Some ==> a.windows_naming_rules && a.timestamp_granularity.length() > 0
            && !a.write_integrity_risk,
        a.write_integrity_risk ==> macos && a.windows_naming_rules
            && a.timestamp_granularity.length() > 0,
        a.case_sensitive ==> a.timestamp_granularity.length() == 0,
        a.timestamp_granularity.length() == 0 || a.timestamp_granularity.length() == 2
            * NANOS_PER_SEC,
        a.max_file_size matches Some(limit) ==> limit + 1 == 4 * 1024 * 1024 * 1024,
{
}

/// The file systems of Windows are known by their names, in any case; no other name is taken
/// for one of them.
pub proof fn lemma_windows_file_systems_are_known(name: Seq<char>)
    ensures
        name == "exfat"@ <==> family_named(name) == FilesystemFamily::ExFat,
        name == "fat32"@ || name == "vfat"@ || name == "msdos"@ || name == "fat"@
            <==> family_named(name) == FilesystemFamily::Fat,
        name == "ntfs"@ || name == "ntfs3"@ <==> family_named(name) == FilesystemFamily::Ntfs,
{
    reveal_strlit("fat");
    reveal_strlit("fat32");
    reveal_strlit("vfat");
    reveal_strlit("msdos");
    reveal_strlit("exfat");
    reveal_strlit("ntfs");
    reveal_strlit("ntfs3");
    assert("fat"@.len() == 3);
    assert("exfat"@[0] == 'e' && "fat32"@[0] == 'f' && "msdos"@[0] == 'm' && "ntfs3"@[0] == 'n');
    assert("vfat"@[0] == 'v' && "ntfs"@[0] == 'n');
}

/// A workload is announced unless the sizes of one kind of its files are more than can be
/// counted.
pub proof fn lemma_countable_work_is_announced(workload: Workload, threshold: u64)
    ensures
        sizes_sum(workload.small@) <= u64::MAX && sizes_sum(workload.large@) <= u64::MAX
            ==> announced(workload, threshold) is Some,
        sizes_sum(workload.small@) > u64::MAX ==> announced(workload, threshold) is None,
        sizes_sum(workload.large@) > u64::MAX ==> announced(workload, threshold) is None,
{
}

} // verus!
