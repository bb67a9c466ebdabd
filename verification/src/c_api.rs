use arrow_schema::ArrowError;
use vstd::prelude::*;

use crate::task::TaskStatus;
use crate::traits::arrow::{arrow_compute_error, compute_error};

verus! {

/// The task states of the C interface.
#[allow(non_camel_case_types)]
#[derive(Clone, Copy, Debug, PartialEq, Eq, Structural)]
pub enum bp_c_task_status_code {
    BP_C_TASK_STATUS_CONTINUE,
    BP_C_TASK_STATUS_BLOCKED,
    BP_C_TASK_STATUS_YIELD,
    BP_C_TASK_STATUS_FINISHED,
    BP_C_TASK_STATUS_CANCELLED,
}

pub open spec fn status_code_spec<A>(status: TaskStatus<A>) -> bp_c_task_status_code {
    match status {
        TaskStatus::Continue => bp_c_task_status_code::BP_C_TASK_STATUS_CONTINUE,
        TaskStatus::Blocked(_) => bp_c_task_status_code::BP_C_TASK_STATUS_BLOCKED,
        TaskStatus::Yield => bp_c_task_status_code::BP_C_TASK_STATUS_YIELD,
        TaskStatus::Finished => bp_c_task_status_code::BP_C_TASK_STATUS_FINISHED,
        TaskStatus::Cancelled => bp_c_task_status_code::BP_C_TASK_STATUS_CANCELLED,
    }
}

/// The C code of a task status.
pub fn from_task_status<A>(status: &TaskStatus<A>) -> (r: bp_c_task_status_code)
    ensures
        r == status_code_spec(*status),
{
    match status {
        TaskStatus::Continue => bp_c_task_status_code::BP_C_TASK_STATUS_CONTINUE,
        TaskStatus::Blocked(_) => bp_c_task_status_code::BP_C_TASK_STATUS_BLOCKED,
        TaskStatus::Yield => bp_c_task_status_code::BP_C_TASK_STATUS_YIELD,
        TaskStatus::Finished => bp_c_task_status_code::BP_C_TASK_STATUS_FINISHED,
        TaskStatus::Cancelled => bp_c_task_status_code::BP_C_TASK_STATUS_CANCELLED,
    }
}

pub open spec fn unknown_error_message() -> Seq<char> {
    "unknown C callback error"@
}

pub open spec fn blocked_error_message() -> Seq<char> {
    "C API callbacks cannot return BLOCKED; use the Rust API for blocked scheduling"@
}

/// What a C callback reported, as a task status: a failed callback is an error with its
/// message (or a fixed one when it gave none); a callback cannot block through the C
/// interface.
pub fn convert_status<A>(ok: bool, status: bp_c_task_status_code, error_message: Option<String>) -> (r: Result<TaskStatus<A>, ArrowError>)
    ensures
        !ok ==> r == Err::<TaskStatus<A>, ArrowError>(arrow_compute_error(
            match error_message {
                Some(m) => m@,
                None => unknown_error_message(),
            },
        )),
        ok && status == bp_c_task_status_code::BP_C_TASK_STATUS_BLOCKED ==>
            r == Err::<TaskStatus<A>, ArrowError>(arrow_compute_error(blocked_error_message())),
        ok && status != bp_c_task_status_code::BP_C_TASK_STATUS_BLOCKED ==>
            r is Ok && status_code_spec(r->Ok_0) == status,
{
    if !ok {
        let message = match error_message {
            Some(m) => m,
            None => String::from_str("unknown C callback error"),
        };
        return Err(compute_error(message));
    }
    match status {
        bp_c_task_status_code::BP_C_TASK_STATUS_CONTINUE => Ok(TaskStatus::Continue),
        bp_c_task_status_code::BP_C_TASK_STATUS_YIELD => Ok(TaskStatus::Yield),
        bp_c_task_status_code::BP_C_TASK_STATUS_FINISHED => Ok(TaskStatus::Finished),
        bp_c_task_status_code::BP_C_TASK_STATUS_CANCELLED => Ok(TaskStatus::Cancelled),
        bp_c_task_status_code::BP_C_TASK_STATUS_BLOCKED => Err(compute_error(String::from_str(
            "C API callbacks cannot return BLOCKED; use the Rust API for blocked scheduling",
        ))),
    }
}

/// The flag and status code that a C caller gets for the result of a run: a status is
/// reported as such, an error as a cancelled run that failed.
pub fn run_outcome<A, E>(result: &Result<TaskStatus<A>, E>) -> (r: (bool, bp_c_task_status_code))
    ensures
        result is Ok ==> r == (true, status_code_spec(result->Ok_0)),
        result is Err ==> r == (false, bp_c_task_status_code::BP_C_TASK_STATUS_CANCELLED),
{
    match result {
        Ok(status) => (true, from_task_status(status)),
        Err(_) => (false, bp_c_task_status_code::BP_C_TASK_STATUS_CANCELLED),
    }
}

} // verus!

verus! {

/// Different statuses other than `Blocked` have different C codes, so a status that goes
/// out through `from_task_status` comes back through `convert_status` as it was.
pub proof fn law_status_code_roundtrip<A>(s: TaskStatus<A>, t: TaskStatus<A>)
    requires
        !(s is Blocked),
        status_code_spec(t) == status_code_spec(s),
    ensures
        t == s,
{
}

} // verus!
