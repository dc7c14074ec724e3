use vstd::prelude::*;

use crate::paths::FilePath;
use crate::planner::config;
use crate::planner::config::{BatchConfig, ErrorStrategy, SortOrder};

verus! {

/// Settings of a copy.
#[derive(Debug)]
pub struct CopyBuilder {
    pub source: FilePath,
    pub dest: FilePath,
    pub overwrite: bool,
    pub skip_if_identical: bool,
    pub preserve_permissions: bool,
    pub allow_filesystem_integrity_risk: bool,
    pub small_file_threshold: Option<u64>,
    pub batch_config: BatchConfig,
    pub concurrency: Option<usize>,
}

impl CopyBuilder {
    /// A copy that refuses destinations that exist.
    pub fn new(source: FilePath, dest: FilePath) -> (r: CopyBuilder)
        ensures
            r == (CopyBuilder {
                source,
                dest,
                overwrite: false,
                skip_if_identical: false,
                preserve_permissions: false,
                allow_filesystem_integrity_risk: false,
                small_file_threshold: None,
                batch_config: config::default_config(),
                concurrency: None,
            }),
    {
        CopyBuilder {
            source,
            dest,
            overwrite: false,
            skip_if_identical: false,
            preserve_permissions: false,
            allow_filesystem_integrity_risk: false,
            small_file_threshold: None,
            batch_config: BatchConfig::default(),
            concurrency: None,
        }
    }

    pub fn overwrite(self, overwrite: bool) -> (r: CopyBuilder)
        ensures
            r == (CopyBuilder { overwrite, ..self }),
    {
        CopyBuilder { overwrite, ..self }
    }

    /// Whether a destination that holds the same content already is left alone rather than
    /// refused. A different one is still refused.
    pub fn skip_if_identical(self, skip: bool) -> (r: CopyBuilder)
        ensures
            r == (CopyBuilder { skip_if_identical: skip, ..self }),
    {
        CopyBuilder { skip_if_identical: skip, ..self }
    }

    /// Whether the permissions of files and directories are kept.
    pub fn preserve_permissions(self, preserve: bool) -> (r: CopyBuilder)
        ensures
            r == (CopyBuilder { preserve_permissions: preserve, ..self }),
    {
        CopyBuilder { preserve_permissions: preserve, ..self }
    }

    /// Whether to write to a file system with a known write-integrity issue.
    pub fn allow_filesystem_integrity_risk(self, allow: bool) -> (r: CopyBuilder)
        ensures
            r == (CopyBuilder { allow_filesystem_integrity_risk: allow, ..self }),
    {
        CopyBuilder { allow_filesystem_integrity_risk: allow, ..self }
    }

    /// Files of at most this many bytes are batched.
    pub fn small_file_threshold(self, bytes: u64) -> (r: CopyBuilder)
        ensures
            r == (CopyBuilder { small_file_threshold: Some(bytes), ..self }),
    {
        CopyBuilder { small_file_threshold: Some(bytes), ..self }
    }

    pub fn max_bytes_per_batch(self, bytes: u64) -> (r: CopyBuilder)
        ensures
            r == (CopyBuilder {
                batch_config: (BatchConfig { max_bytes_per_batch: bytes, ..self.batch_config }),
                ..self
            }),
    {
        let mut out = self;
        out.batch_config.max_bytes_per_batch = bytes;
        out
    }

    pub fn max_files_per_batch(self, n: usize) -> (r: CopyBuilder)
        ensures
            r == (CopyBuilder {
                batch_config: (BatchConfig { max_files_per_batch: Some(n), ..self.batch_config }),
                ..self
            }),
    {
        let mut out = self;
        out.batch_config.max_files_per_batch = Some(n);
        out
    }

    pub fn batch_sort_order(self, order: SortOrder) -> (r: CopyBuilder)
        ensures
            r == (CopyBuilder {
                batch_config: (BatchConfig { sort_order: order, ..self.batch_config }),
                ..self
            }),
    {
        let mut out = self;
        out.batch_config.sort_order = order;
        out
    }

    /// What a failure of one entry does to the rest.
    pub fn on_error(self, strategy: ErrorStrategy) -> (r: CopyBuilder)
        ensures
            r == (CopyBuilder {
                batch_config: (BatchConfig { error_strategy: strategy, ..self.batch_config }),
                ..self
            }),
    {
        let mut out = self;
        out.batch_config.error_strategy = strategy;
        out
    }

    /// How many units of work run at a time.
    pub fn batch_concurrency(self, n: usize) -> (r: CopyBuilder)
        ensures
            r == (CopyBuilder { concurrency: Some(n), ..self }),
    {
        CopyBuilder { concurrency: Some(n), ..self }
    }
}

} // verus!
