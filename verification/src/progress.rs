use vstd::prelude::*;

use crate::paths::FilePath;
use crate::profiler::Entry;

verus! {

/// What a running operation reports.
#[derive(Debug)]
#[non_exhaustive]
pub enum Progress {
    /// How the work is split, before any of it starts.
    Planned {
        directories: usize,
        small_files: usize,
        small_bytes: u64,
        large_files: usize,
        large_bytes: u64,
        small_file_threshold: u64,
    },
    /// The directory pass starts.
    DirectoriesStarted { total: usize },
    DirectoryCompleted { path: FilePath },
    DirectoryFailed { path: FilePath },
    /// A phase of entries starts; `None` where bytes do not matter to it.
    Started { bytes_total: Option<u64>, entries_total: usize },
    EntryStarted { entry: Entry },
    /// How many bytes of an entry in flight have landed so far.
    EntryProgress { entry: Entry, bytes_copied: u64 },
    EntryCompleted { entry: Entry },
    EntryFailed { entry: Entry },
}

} // verus!
