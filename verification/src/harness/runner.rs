use vstd::prelude::*;

use crate::planner::outcome::OperationOutcome;
use crate::progress::Progress;

verus! {

/// How the work of a run was split.
#[derive(Debug, Clone, Copy, PartialEq, Eq, Structural)]
pub struct WorkloadShape {
    pub directories: usize,
    pub small_files: usize,
    pub small_bytes: u64,
    pub large_files: usize,
    pub large_bytes: u64,
    pub small_file_threshold: u64,
}

impl Default for WorkloadShape {
    fn default() -> (r: Self)
        ensures
            r == (WorkloadShape {
                directories: 0,
                small_files: 0,
                small_bytes: 0,
                large_files: 0,
                large_bytes: 0,
                small_file_threshold: 0,
            }),
    {
        WorkloadShape {
            directories: 0,
            small_files: 0,
            small_bytes: 0,
            large_files: 0,
            large_bytes: 0,
            small_file_threshold: 0,
        }
    }
}

/// A run, and how its work was split, where it said so.
#[derive(Debug)]
pub struct RunRecord {
    pub shape: Option<WorkloadShape>,
    pub outcome: OperationOutcome,
}

/// What is known of the shape once `event` was seen.
pub open spec fn shape_behind(shape: Option<WorkloadShape>, event: Progress) -> Option<
    WorkloadShape,
> {
    match event {
        Progress::Planned {
            directories,
            small_files,
            small_bytes,
            large_files,
            large_bytes,
            small_file_threshold,
        } => Some(
            WorkloadShape {
                directories,
                small_files,
                small_bytes,
                large_files,
                large_bytes,
                small_file_threshold,
            },
        ),
        _ => shape,
    }
}

/// What is known of the shape once `event` was seen.
pub fn observe_shape(shape: Option<WorkloadShape>, event: &Progress) -> (r: Option<WorkloadShape>)
    ensures
        r == shape_behind(shape, *event),
{
    match event {
        Progress::Planned {
            directories,
            small_files,
            small_bytes,
            large_files,
            large_bytes,
            small_file_threshold,
        } => Some(
            WorkloadShape {
                directories: *directories,
                small_files: *small_files,
                small_bytes: *small_bytes,
                large_files: *large_files,
                large_bytes: *large_bytes,
                small_file_threshold: *small_file_threshold,
            },
        ),
        _ => shape,
    }
}

/// The shape is that of the last plan: a plan tells all of it, whatever was known, and no
/// other event changes it.
pub proof fn lemma_shape_is_that_of_the_last_plan(
    shape: Option<WorkloadShape>,
    other: Option<WorkloadShape>,
    event: Progress,
)
    ensures
        event is Planned ==> shape_behind(shape, event) == shape_behind(other, event)
            && shape_behind(shape, event) is Some,
        event is Planned ==> ({
            let known = shape_behind(shape, event)->0;
            &&& known.directories == event->directories
            &&& known.small_files == event->small_files
            &&& known.small_bytes == event->small_bytes
            &&& known.large_files == event->large_files
            &&& known.large_bytes == event->large_bytes
            &&& known.small_file_threshold == event->small_file_threshold
        }),
        !(event is Planned) ==> shape_behind(shape, event) == shape,
{
}

} // verus!
