use vstd::prelude::*;

verus! {

/// Index of a task inside a task group.
pub type TaskId = usize;

/// Index of an execution lane; a task id is used as the lane of the pipeline runtime.
pub type ThreadId = usize;

/// The type bundle a pipeline is instantiated with: the batches that flow through the
/// operators and the error that operators and tasks report.
pub trait PipelineTypes {
    type Batch;
    type Error;
}

} // verus!
