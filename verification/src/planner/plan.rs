use vstd::prelude::*;

use super::batch;
use super::batch::{pack, Batch};
use super::config;
use super::config::BatchConfig;
use crate::profiler::{Entry, Workload};

verus! {

/// A large file, which is streamed on its own.
#[derive(Debug)]
pub struct StreamJob {
    pub entry: Entry,
}

/// The work of an operation, cut into units for the worker pool.
#[derive(Debug)]
pub struct ExecutionPlan {
    pub batches: Vec<Batch>,
    pub streams: Vec<StreamJob>,
}

impl Default for ExecutionPlan {
    fn default() -> (r: Self)
        ensures
            r.batches@.len() == 0,
            r.streams@.len() == 0,
    {
        ExecutionPlan { batches: Vec::new(), streams: Vec::new() }
    }
}

/// The entries of the streams, in order.
pub open spec fn streamed(streams: Seq<StreamJob>) -> Seq<Entry> {
    streams.map_values(|s: StreamJob| s.entry)
}

/// Packs the small files into batches and gives every large file a stream.
pub fn plan(workload: Workload, config: &BatchConfig) -> (r: ExecutionPlan)
    ensures
        batch::contents(r.batches@) == batch::packed(
            batch::by_size(workload.small@, config.sort_order),
            config.max_bytes_per_batch,
            config::files_cap(*config, workload.small@),
        ),
        forall|i: int| 0 <= i < r.batches@.len() ==> (#[trigger] r.batches@[i]).wf(),
        streamed(r.streams@) == workload.large@,
{
    let batches = pack(workload.small, config);
    let ghost large = workload.large@;
    let mut streams: Vec<StreamJob> = Vec::with_capacity(workload.large.len());
    for entry in it: workload.large
        invariant
            it.seq() == large,
            streamed(streams@) == large.take(it.index()),
    {
        let ghost before = streams@;
        let ghost added = entry;
        streams.push(StreamJob { entry });
        assert(streamed(streams@) =~= streamed(before).push(added));
        assert(large.take(it.index() + 1) =~= large.take(it.index()).push(added));
    }
    assert(large.take(large.len() as int) =~= large);
    ExecutionPlan { batches, streams }
}

} // verus!
