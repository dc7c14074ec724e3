use vstd::prelude::*;

use crate::paths::FilePath;

verus! {

/// What a running analysis reports.
#[derive(Debug)]
#[non_exhaustive]
pub enum AnalysisProgress {
    /// How many entries a first pass over the tree found to match. Comes before all other
    /// events, and only where the estimate was asked for.
    Started { estimated_entries: usize },
    /// A file matched the filter.
    EntryAnalyzed { path: FilePath },
    /// The content of a file was hashed.
    EntryHashed { path: FilePath },
}

} // verus!
