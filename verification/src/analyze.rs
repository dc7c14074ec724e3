use vstd::prelude::*;

use crate::paths::FilePath;

verus! {

/// What a path leads to.
#[derive(Debug, Clone, Copy, PartialEq, Eq, Structural)]
pub enum FileKind {
    File,
    Directory,
    Symlink,
    Other,
}

/// One row of a listing.
#[derive(Debug)]
pub struct FileInfo {
    pub path: FilePath,
    pub kind: FileKind,
    pub size: u64,
    pub hash: Option<String>,
}

/// Settings of a listing.
#[derive(Debug)]
pub struct AnalyzeBuilder {
    pub path: FilePath,
    pub recursive: bool,
    pub with_hash: bool,
}

impl AnalyzeBuilder {
    /// A listing of everything below `path`, without hashes.
    pub fn new(path: FilePath) -> (r: AnalyzeBuilder)
        ensures
            r == (AnalyzeBuilder { path, recursive: true, with_hash: false }),
    {
        AnalyzeBuilder { path, recursive: true, with_hash: false }
    }

    pub fn recursive(self, enabled: bool) -> (r: AnalyzeBuilder)
        ensures
            r == (AnalyzeBuilder { recursive: enabled, ..self }),
    {
        AnalyzeBuilder { recursive: enabled, ..self }
    }

    /// Whether files are hashed.
    pub fn with_hash(self, enabled: bool) -> (r: AnalyzeBuilder)
        ensures
            r == (AnalyzeBuilder { with_hash: enabled, ..self }),
    {
        AnalyzeBuilder { with_hash: enabled, ..self }
    }
}

} // verus!
