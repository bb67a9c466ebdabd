use vstd::prelude::*;

use crate::text::{decimal, decimal_spec};
use crate::types::PipelineTypes;

verus! {

/// The errors of the schedule layer.
#[derive(Clone, Copy, Debug, PartialEq, Eq)]
pub enum ScheduleError {
    EmptyResumers { awaiter: &'static str },
    InvalidReadyCount { awaiter: &'static str, num_readies: usize },
    UnexpectedResumerType { awaiter: &'static str, expected: &'static str },
    UnexpectedAwaiterType { expected: &'static str },
    TaskGroupThreadPanicked,
}

impl ScheduleError {
    pub open spec fn spec_message(self) -> Seq<char> {
        match self {
            ScheduleError::EmptyResumers { awaiter } => awaiter@ + ": empty resumers"@,
            ScheduleError::InvalidReadyCount { awaiter, num_readies } =>
                awaiter@ + ": num_readies must be > 0, got "@ + decimal_spec(num_readies as nat),
            ScheduleError::UnexpectedResumerType { awaiter, expected } =>
                awaiter@ + ": unexpected resumer type, expected "@ + expected@,
            ScheduleError::UnexpectedAwaiterType { expected } => "unexpected awaiter type, expected "@ + expected@,
            ScheduleError::TaskGroupThreadPanicked => "task group thread panicked"@,
        }
    }

    /// The text of the error.
    pub fn message(&self) -> (r: String)
        ensures
            r@ == self.spec_message(),
    {
        match self {
            ScheduleError::EmptyResumers { awaiter } => String::from_str(awaiter).concat(": empty resumers"),
            ScheduleError::InvalidReadyCount { awaiter, num_readies } => {
                String::from_str(awaiter).concat(": num_readies must be > 0, got ").concat(
                    decimal(*num_readies).as_str(),
                )
            },
            ScheduleError::UnexpectedResumerType { awaiter, expected } => {
                String::from_str(awaiter).concat(": unexpected resumer type, expected ").concat(expected)
            },
            ScheduleError::UnexpectedAwaiterType { expected } => {
                String::from_str("unexpected awaiter type, expected ").concat(expected)
            },
            ScheduleError::TaskGroupThreadPanicked => String::from_str("task group thread panicked"),
        }
    }
}

/// Pipeline types that the schedule layer can run: they say how a schedule error
/// becomes an error of the pipeline.
pub trait ScheduleTypes: PipelineTypes {
    fn from_schedule_error(error: ScheduleError) -> Self::Error;
}

} // verus!
