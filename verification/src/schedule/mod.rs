//! The schedule layer: the resumers and awaiters that blocked tasks wait on, the
//! errors of the layer, and the decisions of the task-group runner.
pub mod awaiter;
pub mod error;
pub mod resumer;
pub mod scheduler;
