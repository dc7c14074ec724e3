pub mod analysis;
pub mod analyze;
pub mod checksum;
pub mod compress;
pub mod criteria;
pub mod engine;
pub mod error;
pub mod eta;
pub mod globs;
pub mod harness;
pub mod move_op;
pub mod operations;
pub mod ordering;
pub mod os_text;
pub mod path_set;
pub mod paths;
pub mod planner;
pub mod profiler;
pub mod progress;
pub mod text;
pub mod validate;

use vstd::prelude::*;

use crate::analysis::builder::{AnalyzeBuilder, DEFAULT_TOP_N_LARGEST};
use crate::analysis::error_strategy::AnalysisErrorStrategy;
use crate::analysis::report::{
    DEFAULT_MAX_REPORTED_DUPLICATE_GROUPS, DEFAULT_MAX_REPORTED_ERRORS,
};
use crate::operations::compress::CompressBuilder;
use crate::operations::copy::CopyBuilder;
use crate::operations::diff::DiffStrategy;
use crate::operations::move_many::MoveManyBuilder;
use crate::operations::move_path::MoveBuilder;
use crate::operations::remove::RemoveBuilder;
use crate::operations::sync::SyncBuilder;
use crate::operations::watch::WatchBuilder;
use crate::paths::FilePath;

verus! {

/// The way into all operations: each method gives the settings of one, with their defaults.
#[derive(Debug)]
pub struct FileEngine;

impl Default for FileEngine {
    fn default() -> (r: Self)
        ensures
            r == FileEngine,
    {
        FileEngine
    }
}

impl FileEngine {
    pub fn new() -> (r: FileEngine)
        ensures
            r == FileEngine,
    {
        FileEngine
    }

    /// Copies a file or a tree. A destination that exists is refused.
    pub fn copy(&self, source: FilePath, dest: FilePath) -> (r: CopyBuilder)
        ensures
            r == (CopyBuilder {
                source,
                dest,
                overwrite: false,
                skip_if_identical: false,
                preserve_permissions: false,
                allow_filesystem_integrity_risk: false,
                small_file_threshold: None,
                batch_config: planner::config::default_config(),
                concurrency: None,
            }),
    {
        CopyBuilder::new(source, dest)
    }

    /// Moves a file or a tree. A destination that exists is refused.
    pub fn move_path(&self, source: FilePath, dest: FilePath) -> (r: MoveBuilder)
        ensures
            r == (MoveBuilder {
                source,
                dest,
                overwrite: false,
                skip_if_identical: false,
                preserve_permissions: false,
                allow_filesystem_integrity_risk: false,
                small_file_threshold: None,
                batch_config: planner::config::default_config(),
                concurrency: None,
            }),
    {
        MoveBuilder::new(source, dest)
    }

    /// Moves several sources into one directory, each under its last name.
    pub fn move_many(&self, sources: Vec<FilePath>, dest: FilePath) -> (r: MoveManyBuilder)
        ensures
            r == (MoveManyBuilder {
                sources,
                dest,
                overwrite: false,
                skip_if_identical: false,
                preserve_permissions: false,
                allow_filesystem_integrity_risk: false,
                small_file_threshold: None,
                batch_config: planner::config::default_config(),
                concurrency: None,
            }),
    {
        MoveManyBuilder::new(sources, dest)
    }

    /// Reports changes below a path, until it is cancelled.
    pub fn watch(&self, path: FilePath) -> (r: WatchBuilder)
        ensures
            r == (WatchBuilder { path, recursive: true }),
    {
        WatchBuilder::new(path)
    }

    /// Makes the destination a mirror of the source. Changed files are overwritten.
    pub fn sync(&self, source: FilePath, dest: FilePath) -> (r: SyncBuilder)
        ensures
            r == (SyncBuilder {
                source,
                dest,
                overwrite: true,
                preserve_permissions: false,
                allow_filesystem_integrity_risk: false,
                small_file_threshold: None,
                batch_config: planner::config::default_config(),
                concurrency: None,
                diff_strategy: DiffStrategy::SizeAndModifiedTime,
            }),
    {
        SyncBuilder::new(source, dest)
    }

    /// Compresses a file or a tree. The format goes by the destination's extension.
    pub fn compress(&self, source: FilePath, dest: FilePath) -> (r: CompressBuilder)
        ensures
            r == (CompressBuilder {
                source,
                dest,
                format: None,
                small_file_threshold: None,
                batch_config: planner::config::default_config(),
                concurrency: None,
            }),
    {
        CompressBuilder::new(source, dest)
    }

    /// Removes files that meet criteria. It is a dry run, and files go to the trash, unless
    /// the caller says otherwise.
    pub fn remove(&self, path: FilePath) -> (r: RemoveBuilder)
        ensures
            r.root == path,
            r.filter.unset(),
            r.max_depth is None,
            !r.follow_symlinks,
            r.dry_run,
            !r.hard_delete,
            !r.allow_unfiltered_delete,
            r.batch_config == planner::config::default_config(),
            r.concurrency is None,
    {
        RemoveBuilder::new(path)
    }

    /// Reports what a tree holds, without touching it.
    pub fn analyze(&self, path: FilePath) -> (r: AnalyzeBuilder)
        ensures
            r.root == path,
            r.filter.unset(),
            r.error_strategy == AnalysisErrorStrategy::ContinueAndCollect,
            r.max_depth is None,
            !r.follow_symlinks,
            r.top_n_largest == DEFAULT_TOP_N_LARGEST,
            !r.detect_mime_types,
            r.max_reported_errors == DEFAULT_MAX_REPORTED_ERRORS,
            r.walk_concurrency is None,
            !r.estimate_total,
            !r.detect_duplicates,
            r.hash_concurrency is None,
            r.max_reported_duplicates == DEFAULT_MAX_REPORTED_DUPLICATE_GROUPS,
    {
        AnalyzeBuilder::new(path)
    }
}

} // verus!
