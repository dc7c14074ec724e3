# file_engine

File operations for desktop applications and developer tools: copy, move, move many, sync,
compress, remove by criteria, watch and analyze, with progress events, cooperative
cancellation and an estimate of the time that is left.

The library under `src/` holds everything that these operations decide, written in Verus:
how small files are packed into batches, which unit a pool of workers starts next, what a
failure does under each error strategy, which sources a move may remove and how it is taken
back, which names a destination cannot hold, what a sync copies and deletes, which files a
removal selects, and what an analysis counts. Every function states what it returns, and
Verus proves it. The library touches no file: it hands out the next step and takes in what
the step came to.

The crate under `app/` performs those steps on tokio and hands the results back.

## Layout

| Path | What it holds |
| --- | --- |
| `src/paths.rs`, `src/path_set.rs`, `src/text.rs` | Paths as texts of names, and sets of them |
| `src/os_text.rs` | Text that loses no byte of a name that is no Unicode |
| `src/error.rs`, `src/progress.rs` | Errors and progress events |
| `src/profiler.rs`, `src/validate.rs` | Files, workloads, and what a destination can hold |
| `src/planner/` | Batches, plans, the pool of workers, and the copy of one file |
| `src/operations/` | The steps of each operation, and the builders that set them up |
| `src/globs.rs`, `src/criteria.rs` | Exclude patterns, and criteria by extension, size and time |
| `src/analysis/` | The inspection of a tree and the search for duplicates |
| `src/compress.rs`, `src/move_op.rs`, `src/analyze.rs`, `src/engine.rs` | Operations on one stream of bytes |
| `src/eta.rs` | The account of outstanding work behind an estimate |
| `src/harness/` | Faults planted on purpose, and the check that they are reported |
| `app/` | File system calls, tasks and handles |
| `tests/` | Tests of the library |

## Outside crates

What the library takes from outside crates stands behind a few trusted items, each with a
contract of its own: content hashes (`blake3`), glob patterns (`globset`), media types
(`infer`) and the composed form of Unicode text (`unicode-normalization`).
