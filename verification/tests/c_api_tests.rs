use arrow_schema::ArrowError;
use broken_pipeline::{bp_c_task_status_code, convert_status, from_task_status, run_outcome, TaskStatus};

fn compute_message(error: ArrowError) -> String {
    match error {
        ArrowError::ComputeError(message) => message,
        other => panic!("unexpected error: {other}"),
    }
}

#[test]
fn task_statuses_map_to_their_c_codes() {
    assert_eq!(from_task_status(&TaskStatus::<()>::Continue), bp_c_task_status_code::BP_C_TASK_STATUS_CONTINUE);
    assert_eq!(from_task_status(&TaskStatus::Blocked(())), bp_c_task_status_code::BP_C_TASK_STATUS_BLOCKED);
    assert_eq!(from_task_status(&TaskStatus::<()>::Yield), bp_c_task_status_code::BP_C_TASK_STATUS_YIELD);
    assert_eq!(from_task_status(&TaskStatus::<()>::Finished), bp_c_task_status_code::BP_C_TASK_STATUS_FINISHED);
    assert_eq!(from_task_status(&TaskStatus::<()>::Cancelled), bp_c_task_status_code::BP_C_TASK_STATUS_CANCELLED);
}

#[test]
fn c_statuses_other_than_blocked_round_trip() {
    for code in [
        bp_c_task_status_code::BP_C_TASK_STATUS_CONTINUE,
        bp_c_task_status_code::BP_C_TASK_STATUS_YIELD,
        bp_c_task_status_code::BP_C_TASK_STATUS_FINISHED,
        bp_c_task_status_code::BP_C_TASK_STATUS_CANCELLED,
    ] {
        let status = convert_status::<()>(true, code, None).unwrap();
        assert_eq!(from_task_status(&status), code);
    }
}

#[test]
fn c_callbacks_cannot_block() {
    let error = convert_status::<()>(true, bp_c_task_status_code::BP_C_TASK_STATUS_BLOCKED, None).err().unwrap();
    assert_eq!(
        compute_message(error),
        "C API callbacks cannot return BLOCKED; use the Rust API for blocked scheduling"
    );
}

#[test]
fn failed_c_callbacks_become_compute_errors() {
    let error = convert_status::<()>(false, bp_c_task_status_code::BP_C_TASK_STATUS_FINISHED, Some("disk full".to_string()))
        .err()
        .unwrap();
    assert_eq!(compute_message(error), "disk full");
    let error = convert_status::<()>(false, bp_c_task_status_code::BP_C_TASK_STATUS_CONTINUE, None).err().unwrap();
    assert_eq!(compute_message(error), "unknown C callback error");
}

#[test]
fn run_outcomes_report_errors_as_cancelled() {
    let ok: Result<TaskStatus<()>, String> = Ok(TaskStatus::Yield);
    assert_eq!(run_outcome(&ok), (true, bp_c_task_status_code::BP_C_TASK_STATUS_YIELD));
    let failed: Result<TaskStatus<()>, String> = Err("boom".to_string());
    assert_eq!(run_outcome(&failed), (false, bp_c_task_status_code::BP_C_TASK_STATUS_CANCELLED));
}
