use broken_pipeline::{
    AsyncDualPoolScheduler, GroupOutcome, NaiveParallelScheduler, ParallelCoroScheduler, PipelineTypes,
    RunAction, ScheduleError, ScheduleTypes, SequentialCoroScheduler, SingleThreadAwaiter,
    SingleThreadResumer, TaskGroupRun, TaskStatus,
};

struct TestScheduleTypes;

impl PipelineTypes for TestScheduleTypes {
    type Batch = i32;
    type Error = String;
}

impl ScheduleTypes for TestScheduleTypes {
    fn from_schedule_error(error: ScheduleError) -> Self::Error {
        error.message()
    }
}

type TestAwaiter = SingleThreadAwaiter<usize>;
type Step = Result<TaskStatus<TestAwaiter>, String>;

/// The sequential scheduler's awaiter factory, reporting errors as the pipeline's own.
fn make_awaiter(resumers: Vec<usize>) -> Result<TestAwaiter, String> {
    SingleThreadAwaiter::new(resumers.len(), resumers).map_err(TestScheduleTypes::from_schedule_error)
}

/// Performs the actions of a task-group run on this thread, calling `task` for each task
/// step and `continuation` for each continuation step.
fn drive(
    run: &mut TaskGroupRun<TestAwaiter>,
    mut task: impl FnMut(usize) -> Step,
    mut continuation: impl FnMut() -> Step,
) -> (Result<GroupOutcome, String>, Vec<RunAction>) {
    let mut trace = Vec::new();
    let mut action = run.next_action();
    loop {
        trace.push(action);
        action = match action {
            RunAction::RunTask(id) => match task(id) {
                Ok(status) => run.task_returned(status),
                Err(error) => {
                    let done = run.failed();
                    trace.push(done);
                    return (Err(error), trace);
                }
            },
            RunAction::CheckTaskAwaiter(id) => {
                let ready = run.task_awaiter(id).map(|a| a.is_ready()).unwrap_or(true);
                run.task_awaiter_checked(ready)
            }
            RunAction::EndSweep { .. } => run.next_action(),
            RunAction::RunContinuation { .. } => match continuation() {
                Ok(status) => run.continuation_returned(status),
                Err(error) => {
                    let done = run.failed();
                    trace.push(done);
                    return (Err(error), trace);
                }
            },
            RunAction::CheckContinuationAwaiter { .. } => {
                let ready = run.continuation_awaiter().map(|a| a.is_ready()).unwrap_or(true);
                run.continuation_awaiter_checked(ready)
            }
            RunAction::Done(outcome) => return (Ok(outcome), trace),
        };
    }
}

#[test]
fn custom_pipeline_types_can_use_sequential_scheduler_for_tests() {
    let scheduler = SequentialCoroScheduler::default();
    let awaiter_error = match make_awaiter(Vec::new()) {
        Ok(_) => panic!("empty resumers should surface a scheduler-local error"),
        Err(error) => error,
    };
    assert!(awaiter_error.contains("SingleThreadAwaiter: empty resumers"));

    let mut first_step = true;
    let task = |_id: usize| -> Step {
        if first_step {
            first_step = false;
            let mut resumer: SingleThreadResumer<usize> = SingleThreadResumer::default();
            let mut awaiter = make_awaiter(vec![0])?;
            assert!(resumer.add_callback(0).is_none());
            for _token in resumer.resume() {
                awaiter.notify_ready();
            }
            return Ok(TaskStatus::Blocked(awaiter));
        }
        Ok(TaskStatus::Finished)
    };
    let mut run = scheduler.start_group::<TestAwaiter>(1, false);
    let (result, _) = drive(&mut run, task, || Ok(TaskStatus::Finished));
    let outcome = result.expect("custom pipeline types should run through the scheduler");
    assert_eq!(outcome, GroupOutcome::Finished);
}

#[test]
fn blocked_task_is_checked_before_it_runs_again() {
    let mut run = TaskGroupRun::<TestAwaiter>::new(1, false);
    let mut steps = 0;
    let (result, trace) = drive(
        &mut run,
        |_| {
            steps += 1;
            if steps == 1 {
                let mut awaiter = make_awaiter(vec![0])?;
                awaiter.notify_ready();
                Ok(TaskStatus::Blocked(awaiter))
            } else {
                Ok(TaskStatus::Finished)
            }
        },
        || Ok(TaskStatus::Finished),
    );
    assert_eq!(result, Ok(GroupOutcome::Finished));
    assert_eq!(
        trace,
        vec![
            RunAction::RunTask(0),
            RunAction::EndSweep { progressed: true },
            RunAction::CheckTaskAwaiter(0),
            RunAction::RunTask(0),
            RunAction::EndSweep { progressed: true },
            RunAction::Done(GroupOutcome::Finished),
        ]
    );
    assert_eq!(steps, 2);
}

#[test]
fn awaiter_that_is_not_ready_keeps_the_task_waiting() {
    let mut run = TaskGroupRun::<TestAwaiter>::new(1, false);
    assert_eq!(run.next_action(), RunAction::RunTask(0));
    let awaiter = make_awaiter(vec![0]).unwrap();
    assert_eq!(run.task_returned(TaskStatus::Blocked(awaiter)), RunAction::EndSweep { progressed: true });
    assert_eq!(run.next_action(), RunAction::CheckTaskAwaiter(0));
    assert!(run.task_awaiter(0).is_some());
    assert_eq!(run.task_awaiter_checked(false), RunAction::EndSweep { progressed: false });
    assert_eq!(run.next_action(), RunAction::CheckTaskAwaiter(0));
    assert_eq!(run.task_awaiter_checked(true), RunAction::RunTask(0));
    assert!(run.task_awaiter(0).is_none());
}

#[test]
fn continuation_runs_after_every_task_finished() {
    let mut run = TaskGroupRun::<TestAwaiter>::new(2, true);
    let mut order = Vec::new();
    let mut continuation_ran = false;
    let (result, trace) = drive(
        &mut run,
        |id| {
            order.push(id);
            Ok(TaskStatus::Finished)
        },
        || {
            continuation_ran = true;
            Ok(TaskStatus::Finished)
        },
    );
    assert_eq!(result, Ok(GroupOutcome::Finished));
    assert!(continuation_ran);
    assert_eq!(order, vec![0, 1]);
    assert_eq!(
        trace,
        vec![
            RunAction::RunTask(0),
            RunAction::RunTask(1),
            RunAction::EndSweep { progressed: true },
            RunAction::RunContinuation { yield_first: false },
            RunAction::Done(GroupOutcome::Finished),
        ]
    );
}

#[test]
fn yielding_task_runs_again_in_the_next_sweep() {
    let mut run = TaskGroupRun::<TestAwaiter>::new(1, false);
    let mut steps = 0;
    let (result, trace) = drive(
        &mut run,
        |_| {
            steps += 1;
            Ok(if steps < 3 { TaskStatus::Yield } else { TaskStatus::Finished })
        },
        || Ok(TaskStatus::Finished),
    );
    assert_eq!(result, Ok(GroupOutcome::Finished));
    assert_eq!(steps, 3);
    assert_eq!(trace.iter().filter(|a| matches!(a, RunAction::RunTask(0))).count(), 3);
}

#[test]
fn cancelled_task_cancels_the_group_and_skips_the_continuation() {
    let mut run = TaskGroupRun::<TestAwaiter>::new(2, true);
    let mut continuation_ran = false;
    let (result, _) = drive(
        &mut run,
        |id| Ok(if id == 0 { TaskStatus::Cancelled } else { TaskStatus::Finished }),
        || {
            continuation_ran = true;
            Ok(TaskStatus::Finished)
        },
    );
    assert_eq!(result, Ok(GroupOutcome::Cancelled));
    assert!(!continuation_ran);
}

#[test]
fn task_error_fails_the_group() {
    let mut run = TaskGroupRun::<TestAwaiter>::new(2, false);
    let (result, trace) = drive(&mut run, |_| Err("boom".to_string()), || Ok(TaskStatus::Finished));
    assert_eq!(result, Err("boom".to_string()));
    assert_eq!(trace, vec![RunAction::RunTask(0), RunAction::Done(GroupOutcome::Failed)]);
}

#[test]
fn blocked_continuation_waits_for_its_awaiter() {
    let mut run = TaskGroupRun::<TestAwaiter>::new(0, true);
    let mut calls = 0;
    let (result, trace) = drive(
        &mut run,
        |_| Ok(TaskStatus::Finished),
        || {
            calls += 1;
            if calls == 1 {
                let mut awaiter = make_awaiter(vec![0])?;
                awaiter.notify_ready();
                Ok(TaskStatus::Blocked(awaiter))
            } else {
                Ok(TaskStatus::Finished)
            }
        },
    );
    assert_eq!(result, Ok(GroupOutcome::Finished));
    assert_eq!(
        trace,
        vec![
            RunAction::RunContinuation { yield_first: false },
            RunAction::CheckContinuationAwaiter { sleep_first: false },
            RunAction::RunContinuation { yield_first: false },
            RunAction::Done(GroupOutcome::Finished),
        ]
    );
}

#[test]
fn every_scheduler_starts_the_same_run() {
    let a = NaiveParallelScheduler.start_group::<TestAwaiter>(3, false);
    let b = ParallelCoroScheduler.start_group::<TestAwaiter>(3, false);
    let c = SequentialCoroScheduler.start_group::<TestAwaiter>(3, false);
    let d = AsyncDualPoolScheduler::default().start_group::<TestAwaiter>(3, false);
    for mut run in [a, b, c, d] {
        assert_eq!(run.next_action(), RunAction::RunTask(0));
        assert!(run.task_awaiter(0).is_none());
    }
}

#[test]
fn dual_pool_scheduler_keeps_its_pool_sizes() {
    let scheduler = AsyncDualPoolScheduler::new(8, 3);
    assert_eq!(scheduler.cpu_threads(), 8);
    assert_eq!(scheduler.io_threads(), 3);
    let default = AsyncDualPoolScheduler::default();
    assert_eq!((default.cpu_threads(), default.io_threads()), (4, 2));
}

#[test]
fn each_blocked_task_keeps_its_own_awaiter() {
    let mut run = TaskGroupRun::<TestAwaiter>::new(2, true);
    assert_eq!(run.next_action(), RunAction::RunTask(0));
    let first = make_awaiter(vec![10]).unwrap();
    assert_eq!(run.task_returned(TaskStatus::Blocked(first)), RunAction::RunTask(1));
    let second = make_awaiter(vec![20, 21]).unwrap();
    assert_eq!(run.task_returned(TaskStatus::Blocked(second)), RunAction::EndSweep { progressed: true });
    assert_eq!(run.task_awaiter(0).unwrap().resumers(), &[10]);
    assert_eq!(run.task_awaiter(1).unwrap().resumers(), &[20, 21]);
    assert!(run.continuation_awaiter().is_none());
}
