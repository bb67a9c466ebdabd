use std::sync::Arc;

use arrow_array::RecordBatch;
use arrow_schema::ArrowError;
use vstd::prelude::*;

use crate::schedule::error::ScheduleError;

verus! {

/// Arrow's error type.
#[verifier::external_type_specification]
#[verifier::external_body]
pub struct ExArrowError(ArrowError);

pub type Batch = Arc<RecordBatch>;

pub type Error = ArrowError;

pub type Result<T> = std::result::Result<T, Error>;

/// The error that `ArrowError::ComputeError` makes of a message.
pub uninterp spec fn arrow_compute_error(message: Seq<char>) -> ArrowError;

/// Makes `ArrowError::ComputeError(message)`; the contract names the error by its message
/// and claims nothing more of it.
#[verifier::external_body]
pub(crate) fn compute_error(message: String) -> (r: ArrowError)
    ensures
        r == arrow_compute_error(message@),
{
    ArrowError::ComputeError(message)
}

/// The Arrow error that a schedule error becomes: a compute error with the error's text.
pub fn schedule_error_to_arrow(error: ScheduleError) -> (r: ArrowError)
    ensures
        r == arrow_compute_error(error.spec_message()),
{
    compute_error(error.message())
}

} // verus!
