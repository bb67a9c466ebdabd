//! Task, operator and pipeline protocol of Broken Pipeline, with the small-step
//! pipeline runtime, pipeline compilation and the schedule layer's decision logic.
pub mod c_api;
pub mod channel;
pub mod compile;
pub mod operator;
pub mod order;
pub mod pipeline;
pub mod pipeline_exec;
pub mod schedule;
pub mod task;
pub mod text;
pub mod traits;
pub mod types;

pub use c_api::{bp_c_task_status_code, convert_status, from_task_status, run_outcome};
pub use compile::compile;
pub use operator::{OpOutput, OpOutputKind};
pub use pipeline::{PipeInfo, Pipeline, PipelineChannel};
pub use pipeline_exec::{ExecContext, OperatorCall, PipeExec, PipelineExec, Pipelinexe, StepError};
pub use schedule::awaiter::{ConditionalAwaiter, CoroAwaiter, FutureAwaiter, SingleThreadAwaiter};
pub use schedule::error::{ScheduleError, ScheduleTypes};
pub use schedule::resumer::{CallbackResumer, CoroResumer, SingleThreadResumer};
pub use schedule::scheduler::{
    AsyncDualPoolScheduler, GroupOutcome, NaiveParallelScheduler, ParallelCoroScheduler, RunAction,
    SequentialCoroScheduler, TaskGroupRun,
};
pub use task::{Awaiter, Resumer, TaskHint, TaskHintType, TaskStatus};
pub use types::{PipelineTypes, TaskId, ThreadId};
