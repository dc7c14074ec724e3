use vstd::prelude::*;

use crate::analyze::AnalyzeBuilder;
use crate::compress::{CompressBuilder, DecompressBuilder};
use crate::paths::FilePath;

verus! {

/// What all operations of an engine share.
#[derive(Debug)]
pub struct EngineOptions {
    pub buffer_size: usize,
    pub follow_symlinks: bool,
}

impl Default for EngineOptions {
    fn default() -> (r: Self)
        ensures
            r == (EngineOptions { buffer_size: 1048576, follow_symlinks: false }),
    {
        EngineOptions { buffer_size: 1024 * 1024, follow_symlinks: false }
    }
}

impl Clone for EngineOptions {
    fn clone(&self) -> (r: Self)
        ensures
            r == *self,
    {
        EngineOptions { buffer_size: self.buffer_size, follow_symlinks: self.follow_symlinks }
    }
}

/// An engine that streams files through a buffer of a set size.
#[derive(Debug)]
pub struct FileEngine {
    pub default_options: EngineOptions,
}

impl FileEngine {
    /// An engine with a buffer of one mebibyte, which follows no symbolic links.
    pub fn new() -> (r: FileEngine)
        ensures
            r.default_options == (EngineOptions { buffer_size: 1048576, follow_symlinks: false }),
    {
        FileEngine { default_options: EngineOptions::default() }
    }

    pub fn with_options(options: EngineOptions) -> (r: FileEngine)
        ensures
            r.default_options == options,
    {
        FileEngine { default_options: options }
    }

    pub fn options(&self) -> (r: &EngineOptions)
        ensures
            *r == self.default_options,
    {
        &self.default_options
    }

    /// A compression with the engine's buffer size.
    pub fn compress(&self, src: FilePath, dst: FilePath) -> (r: CompressBuilder)
        ensures
            r == (CompressBuilder {
                src,
                dst,
                format: None,
                buffer_size: self.default_options.buffer_size,
            }),
    {
        CompressBuilder::new(src, dst, self.options().buffer_size)
    }

    /// A decompression with the engine's buffer size.
    pub fn decompress(&self, src: FilePath, dst: FilePath) -> (r: DecompressBuilder)
        ensures
            r == (DecompressBuilder {
                src,
                dst,
                format: None,
                buffer_size: self.default_options.buffer_size,
            }),
    {
        DecompressBuilder::new(src, dst, self.options().buffer_size)
    }

    /// A listing of `path`.
    pub fn analyze(&self, path: FilePath) -> (r: AnalyzeBuilder)
        ensures
            r == (AnalyzeBuilder { path, recursive: true, with_hash: false }),
    {
        AnalyzeBuilder::new(path)
    }
}

impl Default for FileEngine {
    fn default() -> (r: Self)
        ensures
            r.default_options == (EngineOptions { buffer_size: 1048576, follow_symlinks: false }),
    {
        FileEngine::new()
    }
}

} // verus!
