use vstd::prelude::*;

use crate::task::TaskStatus;

verus! {

/// How a task group ended.
#[derive(Clone, Copy, Debug, PartialEq, Eq, Structural)]
pub enum GroupOutcome {
    Finished,
    Cancelled,
    Failed,
}

/// What the runner of a task group does next.
#[derive(Clone, Copy, Debug, PartialEq, Eq, Structural)]
pub enum RunAction {
    /// Run the task with this id and report what it returned.
    RunTask(usize),
    /// Ask whether the awaiter of the blocked task with this id is ready.
    CheckTaskAwaiter(usize),
    /// A sweep over the tasks ended: sleep a little when nothing progressed, else yield,
    /// then ask for the next action.
    EndSweep { progressed: bool },
    /// Run the continuation, after yielding the thread when asked.
    RunContinuation { yield_first: bool },
    /// Ask whether the awaiter of the blocked continuation is ready, after sleeping a
    /// little when asked.
    CheckContinuationAwaiter { sleep_first: bool },
    /// The group is done.
    Done(GroupOutcome),
}

#[derive(Clone, Copy, Debug, PartialEq, Eq, Structural)]
pub enum RunPhase {
    Tasks,
    Continuation,
    ContinuationBlocked,
    Done,
}

/// The mathematical model of a task-group run.
pub struct RunView {
    pub num_tasks: nat,
    pub has_continuation: bool,
    pub blocked: Seq<bool>,
    pub complete: Seq<bool>,
    pub saw_cancelled: bool,
    pub cursor: nat,
    pub progressed: bool,
    pub phase: RunPhase,
    pub continuation_blocked: bool,
}

impl RunView {
    pub open spec fn wf(self) -> bool {
        &&& self.blocked.len() == self.num_tasks
        &&& self.complete.len() == self.num_tasks
        &&& self.cursor <= self.num_tasks
        &&& self.num_tasks <= usize::MAX
    }

    pub open spec fn all_complete(self) -> bool {
        forall|i: int| 0 <= i < self.num_tasks ==> #[trigger] self.complete[i]
    }
}

/// When every task completed: a cancelled task cancels the group, else the continuation
/// runs if there is one, else the group finished.
pub open spec fn finish_tasks_spec(v: RunView) -> (RunView, RunAction) {
    if v.saw_cancelled {
        (RunView { phase: RunPhase::Done, ..v }, RunAction::Done(GroupOutcome::Cancelled))
    } else if v.has_continuation {
        (RunView { phase: RunPhase::Continuation, ..v }, RunAction::RunContinuation { yield_first: false })
    } else {
        (RunView { phase: RunPhase::Done, ..v }, RunAction::Done(GroupOutcome::Finished))
    }
}

/// Goes on with the sweep from the cursor: complete tasks are skipped, a blocked task
/// has its awaiter checked, another task runs; at the end of the tasks the sweep ends.
pub open spec fn sweep_spec(v: RunView) -> (RunView, RunAction)
    decreases v.num_tasks - v.cursor,
{
    if v.cursor >= v.num_tasks {
        (RunView { cursor: 0, progressed: false, ..v }, RunAction::EndSweep { progressed: v.progressed })
    } else if v.complete[v.cursor as int] {
        sweep_spec(RunView { cursor: v.cursor + 1, ..v })
    } else if v.blocked[v.cursor as int] {
        (v, RunAction::CheckTaskAwaiter(v.cursor as usize))
    } else {
        (v, RunAction::RunTask(v.cursor as usize))
    }
}

/// At the start of a sweep the run ends the tasks' phase when every task completed.
pub open spec fn next_spec(v: RunView) -> (RunView, RunAction) {
    if v.cursor == 0 && v.all_complete() {
        finish_tasks_spec(v)
    } else {
        sweep_spec(v)
    }
}

pub open spec fn task_awaiter_checked_spec(v: RunView, ready: bool) -> (RunView, RunAction) {
    if ready {
        (
            RunView { blocked: v.blocked.update(v.cursor as int, false), ..v },
            RunAction::RunTask(v.cursor as usize),
        )
    } else {
        sweep_spec(RunView { cursor: v.cursor + 1, ..v })
    }
}

/// The run once the task under the cursor returned `status`, before the sweep goes on:
/// the task ran, and it is blocked, complete, or complete and cancelled as it reported.
pub open spec fn returned_view<A>(v: RunView, status: TaskStatus<A>) -> RunView {
    let c = v.cursor as int;
    let ran = RunView { progressed: true, cursor: v.cursor + 1, ..v };
    match status {
        TaskStatus::Blocked(_) => RunView { blocked: v.blocked.update(c, true), ..ran },
        TaskStatus::Finished => RunView { complete: v.complete.update(c, true), ..ran },
        TaskStatus::Cancelled => RunView { complete: v.complete.update(c, true), saw_cancelled: true, ..ran },
        _ => ran,
    }
}

pub open spec fn task_returned_spec<A>(v: RunView, status: TaskStatus<A>) -> (RunView, RunAction) {
    sweep_spec(returned_view(v, status))
}

pub open spec fn continuation_returned_spec<A>(v: RunView, status: TaskStatus<A>) -> (RunView, RunAction) {
    match status {
        TaskStatus::Blocked(_) => (
            RunView { phase: RunPhase::ContinuationBlocked, continuation_blocked: true, ..v },
            RunAction::CheckContinuationAwaiter { sleep_first: false },
        ),
        TaskStatus::Finished => (RunView { phase: RunPhase::Done, ..v }, RunAction::Done(GroupOutcome::Finished)),
        TaskStatus::Cancelled => (RunView { phase: RunPhase::Done, ..v }, RunAction::Done(GroupOutcome::Cancelled)),
        _ => (v, RunAction::RunContinuation { yield_first: true }),
    }
}

pub open spec fn continuation_awaiter_checked_spec(v: RunView, ready: bool) -> (RunView, RunAction) {
    if ready {
        (
            RunView { phase: RunPhase::Continuation, continuation_blocked: false, ..v },
            RunAction::RunContinuation { yield_first: false },
        )
    } else {
        (v, RunAction::CheckContinuationAwaiter { sleep_first: true })
    }
}

pub open spec fn failed_spec(v: RunView) -> (RunView, RunAction) {
    (RunView { phase: RunPhase::Done, ..v }, RunAction::Done(GroupOutcome::Failed))
}

/// The decisions of running one task group: which task runs next, when a blocked task
/// is checked, when the continuation runs, and how the group ends. The runner performs
/// each action and reports back what happened.
pub struct TaskGroupRun<A> {
    num_tasks: usize,
    has_continuation: bool,
    blocked: Vec<Option<A>>,
    complete: Vec<bool>,
    saw_cancelled: bool,
    cursor: usize,
    progressed: bool,
    phase: RunPhase,
    continuation_awaiter: Option<A>,
}

impl<A> View for TaskGroupRun<A> {
    type V = RunView;

    closed spec fn view(&self) -> RunView {
        RunView {
            num_tasks: self.num_tasks as nat,
            has_continuation: self.has_continuation,
            blocked: self.blocked@.map_values(|o: Option<A>| o is Some),
            complete: self.complete@,
            saw_cancelled: self.saw_cancelled,
            cursor: self.cursor as nat,
            progressed: self.progressed,
            phase: self.phase,
            continuation_blocked: self.continuation_awaiter is Some,
        }
    }
}

impl<A> TaskGroupRun<A> {
    /// The awaiter that each task is blocked on, by task id.
    pub closed spec fn awaiters(&self) -> Seq<Option<A>> {
        self.blocked@
    }

    /// The awaiter that the continuation is blocked on.
    pub closed spec fn pending_continuation(&self) -> Option<A> {
        self.continuation_awaiter
    }

    /// A task is blocked exactly when it has an awaiter; the continuation likewise.
    pub proof fn lemma_awaiters_match_view(&self)
        ensures
            self.awaiters().len() == self@.blocked.len(),
            forall|i: int| 0 <= i < self@.blocked.len() ==> (#[trigger] self.awaiters()[i] is Some) == self@.blocked[i],
            self.pending_continuation() is Some == self@.continuation_blocked,
    {
    }

    /// A run of `num_tasks` tasks, followed by a continuation when `has_continuation`.
    pub fn new(num_tasks: usize, has_continuation: bool) -> (r: Self)
        ensures
            r@.wf(),
            r@.num_tasks == num_tasks,
            r@.has_continuation == has_continuation,
            r@.blocked == Seq::new(num_tasks as nat, |i: int| false),
            r@.complete == Seq::new(num_tasks as nat, |i: int| false),
            !r@.saw_cancelled,
            r@.cursor == 0,
            !r@.progressed,
            r@.phase == RunPhase::Tasks,
            !r@.continuation_blocked,
            r.awaiters() == Seq::new(num_tasks as nat, |i: int| None::<A>),
            r.pending_continuation() is None,
    {
        let mut blocked: Vec<Option<A>> = Vec::new();
        let mut complete: Vec<bool> = Vec::new();
        let mut i: usize = 0;
        while i < num_tasks
            invariant
                i <= num_tasks,
                blocked@.len() == i,
                forall|j: int| 0 <= j < i ==> #[trigger] blocked@[j] is None,
                complete@ == Seq::new(i as nat, |j: int| false),
            decreases num_tasks - i,
        {
            blocked.push(None);
            complete.push(false);
            i = i + 1;
        }
        assert(blocked@.map_values(|o: Option<A>| o is Some) =~= Seq::new(num_tasks as nat, |j: int| false));
        assert(blocked@ =~= Seq::new(num_tasks as nat, |j: int| None::<A>));
        TaskGroupRun {
            num_tasks,
            has_continuation,
            blocked,
            complete,
            saw_cancelled: false,
            cursor: 0,
            progressed: false,
            phase: RunPhase::Tasks,
            continuation_awaiter: None,
        }
    }

    /// The awaiter of task `task_id`, while it is blocked.
    pub fn task_awaiter(&self, task_id: usize) -> (r: Option<&A>)
        requires
            task_id < self@.num_tasks,
            self@.wf(),
        ensures
            r is Some == self@.blocked[task_id as int],
            r matches Some(a) ==> self.awaiters()[task_id as int] == Some(*a),
    {
        self.blocked[task_id].as_ref()
    }

    /// The awaiter of the continuation, while it is blocked.
    pub fn continuation_awaiter(&self) -> (r: Option<&A>)
        ensures
            r is Some == self@.continuation_blocked,
            r matches Some(a) ==> self.pending_continuation() == Some(*a),
    {
        self.continuation_awaiter.as_ref()
    }

    fn sweep(&mut self) -> (r: RunAction)
        requires
            old(self)@.wf(),
        ensures
            (final(self)@, r) == sweep_spec(old(self)@),
            final(self).continuation_awaiter == old(self).continuation_awaiter,
            final(self).blocked@ == old(self).blocked@,
    {
        while self.cursor < self.num_tasks && self.complete[self.cursor]
            invariant
                self@.wf(),
                sweep_spec(self@) == sweep_spec(old(self)@),
                self.continuation_awaiter == old(self).continuation_awaiter,
                self.blocked@ == old(self).blocked@,
            decreases self.num_tasks - self.cursor,
        {
            self.cursor = self.cursor + 1;
        }
        if self.cursor >= self.num_tasks {
            let progressed = self.progressed;
            self.cursor = 0;
            self.progressed = false;
            RunAction::EndSweep { progressed }
        } else if self.blocked[self.cursor].is_some() {
            RunAction::CheckTaskAwaiter(self.cursor)
        } else {
            RunAction::RunTask(self.cursor)
        }
    }

    /// The next action of the tasks' phase, at the start of the run or after a sweep ended.
    pub fn next_action(&mut self) -> (r: RunAction)
        requires
            old(self)@.wf(),
            old(self)@.phase == RunPhase::Tasks,
        ensures
            final(self)@.wf(),
            (final(self)@, r) == next_spec(old(self)@),
            final(self).awaiters() == old(self).awaiters(),
            final(self).pending_continuation() == old(self).pending_continuation(),
    {
        let mut all_complete = true;
        if self.cursor == 0 {
            let mut i: usize = 0;
            while i < self.num_tasks
                invariant
                    self@.wf(),
                    self@ == old(self)@,
                    i <= self.num_tasks,
                    all_complete == forall|j: int| 0 <= j < i ==> #[trigger] self.complete@[j],
                decreases self.num_tasks - i,
            {
                if !self.complete[i] {
                    all_complete = false;
                }
                i = i + 1;
            }
        }
        if self.cursor == 0 && all_complete {
            if self.saw_cancelled {
                self.phase = RunPhase::Done;
                RunAction::Done(GroupOutcome::Cancelled)
            } else if self.has_continuation {
                self.phase = RunPhase::Continuation;
                RunAction::RunContinuation { yield_first: false }
            } else {
                self.phase = RunPhase::Done;
                RunAction::Done(GroupOutcome::Finished)
            }
        } else {
            proof {
                lemma_sweep_wf(self@);
            }
            self.sweep()
        }
    }

    /// Takes whether the awaiter of the task under the cursor is ready.
    pub fn task_awaiter_checked(&mut self, ready: bool) -> (r: RunAction)
        requires
            old(self)@.wf(),
            old(self)@.phase == RunPhase::Tasks,
            old(self)@.cursor < old(self)@.num_tasks,
        ensures
            final(self)@.wf(),
            (final(self)@, r) == task_awaiter_checked_spec(old(self)@, ready),
            ready ==> final(self).awaiters() == old(self).awaiters().update(old(self)@.cursor as int, None),
            !ready ==> final(self).awaiters() == old(self).awaiters(),
            final(self).pending_continuation() == old(self).pending_continuation(),
    {
        if ready {
            self.blocked.set(self.cursor, None);
            proof {
                assert(self@.blocked =~= old(self)@.blocked.update(old(self)@.cursor as int, false));
            }
            RunAction::RunTask(self.cursor)
        } else {
            self.cursor = self.cursor + 1;
            proof {
                lemma_sweep_wf(self@);
            }
            self.sweep()
        }
    }

    /// Takes what the task under the cursor returned.
    pub fn task_returned(&mut self, status: TaskStatus<A>) -> (r: RunAction)
        requires
            old(self)@.wf(),
            old(self)@.phase == RunPhase::Tasks,
            old(self)@.cursor < old(self)@.num_tasks,
        ensures
            final(self)@.wf(),
            (final(self)@, r) == task_returned_spec(old(self)@, status),
            status is Blocked ==> final(self).awaiters()
                == old(self).awaiters().update(old(self)@.cursor as int, Some(status->Blocked_0)),
            !(status is Blocked) ==> final(self).awaiters() == old(self).awaiters(),
            final(self).pending_continuation() == old(self).pending_continuation(),
    {
        let ghost status_copy = status;
        let c = self.cursor;
        self.progressed = true;
        match status {
            TaskStatus::Blocked(awaiter) => {
                self.blocked.set(c, Some(awaiter));
                proof {
                    assert(self@.blocked =~= old(self)@.blocked.update(c as int, true));
                }
            },
            TaskStatus::Finished => {
                self.complete.set(c, true);
            },
            TaskStatus::Cancelled => {
                self.complete.set(c, true);
                self.saw_cancelled = true;
            },
            _ => {},
        }
        self.cursor = c + 1;
        proof {
            lemma_sweep_wf(self@);
        }
        self.sweep()
    }

    /// Takes what the continuation returned.
    pub fn continuation_returned(&mut self, status: TaskStatus<A>) -> (r: RunAction)
        requires
            old(self)@.wf(),
            old(self)@.phase == RunPhase::Continuation,
        ensures
            final(self)@.wf(),
            (final(self)@, r) == continuation_returned_spec(old(self)@, status),
            final(self).awaiters() == old(self).awaiters(),
            status is Blocked ==> final(self).pending_continuation() == Some(status->Blocked_0),
            !(status is Blocked) ==> final(self).pending_continuation() == old(self).pending_continuation(),
    {
        match status {
            TaskStatus::Blocked(awaiter) => {
                self.continuation_awaiter = Some(awaiter);
                self.phase = RunPhase::ContinuationBlocked;
                RunAction::CheckContinuationAwaiter { sleep_first: false }
            },
            TaskStatus::Finished => {
                self.phase = RunPhase::Done;
                RunAction::Done(GroupOutcome::Finished)
            },
            TaskStatus::Cancelled => {
                self.phase = RunPhase::Done;
                RunAction::Done(GroupOutcome::Cancelled)
            },
            _ => RunAction::RunContinuation { yield_first: true },
        }
    }

    /// Takes whether the awaiter of the blocked continuation is ready.
    pub fn continuation_awaiter_checked(&mut self, ready: bool) -> (r: RunAction)
        requires
            old(self)@.wf(),
            old(self)@.phase == RunPhase::ContinuationBlocked,
        ensures
            final(self)@.wf(),
            (final(self)@, r) == continuation_awaiter_checked_spec(old(self)@, ready),
            final(self).awaiters() == old(self).awaiters(),
            ready ==> final(self).pending_continuation() is None,
            !ready ==> final(self).pending_continuation() == old(self).pending_continuation(),
    {
        if ready {
            self.continuation_awaiter = None;
            self.phase = RunPhase::Continuation;
            RunAction::RunContinuation { yield_first: false }
        } else {
            RunAction::CheckContinuationAwaiter { sleep_first: true }
        }
    }

    /// A task, the continuation or an awaiter check failed: the group ends with the error.
    pub fn failed(&mut self) -> (r: RunAction)
        requires
            old(self)@.wf(),
        ensures
            final(self)@.wf(),
            (final(self)@, r) == failed_spec(old(self)@),
            final(self).awaiters() == old(self).awaiters(),
            final(self).pending_continuation() == old(self).pending_continuation(),
    {
        self.phase = RunPhase::Done;
        RunAction::Done(GroupOutcome::Failed)
    }
}

pub proof fn lemma_sweep_wf(v: RunView)
    requires
        v.wf(),
    ensures
        sweep_spec(v).0.wf(),
        sweep_spec(v).0.phase == v.phase,
        sweep_spec(v).0.complete == v.complete,
        sweep_spec(v).0.blocked == v.blocked,
        sweep_spec(v).0.saw_cancelled == v.saw_cancelled,
        sweep_spec(v).1 matches RunAction::RunTask(id) ==>
            id < v.num_tasks && !v.complete[id as int] && !v.blocked[id as int] && sweep_spec(v).0.cursor == id,
        sweep_spec(v).1 matches RunAction::CheckTaskAwaiter(id) ==>
            id < v.num_tasks && !v.complete[id as int] && v.blocked[id as int] && sweep_spec(v).0.cursor == id,
        sweep_spec(v).1 is EndSweep || sweep_spec(v).1 is RunTask || sweep_spec(v).1 is CheckTaskAwaiter,
    decreases v.num_tasks - v.cursor,
{
    if v.cursor < v.num_tasks && v.complete[v.cursor as int] {
        lemma_sweep_wf(RunView { cursor: v.cursor + 1, ..v });
    }
}

} // verus!

verus! {

/// Runs each task group on a thread of its own, with callback resumers and conditional
/// awaiters.
#[derive(Clone, Copy, Debug, Default)]
pub struct NaiveParallelScheduler;

/// Runs each task group on a thread of its own, with callback resumers and future
/// awaiters; it is configured with the sizes of a CPU pool and an IO pool.
#[derive(Clone, Copy, Debug)]
pub struct AsyncDualPoolScheduler {
    cpu_threads: usize,
    io_threads: usize,
}

/// Runs each task group on a thread of its own, with coroutine resumers and awaiters.
#[derive(Clone, Copy, Debug, Default)]
pub struct ParallelCoroScheduler;

/// Runs each task group on a thread of its own, with single-thread resumers and awaiters.
#[derive(Clone, Copy, Debug, Default)]
pub struct SequentialCoroScheduler;

impl NaiveParallelScheduler {
    /// The decisions of running a group of `num_tasks` tasks.
    pub fn start_group<A>(&self, num_tasks: usize, has_continuation: bool) -> (r: TaskGroupRun<A>)
        ensures
            r@.wf(),
            r@.num_tasks == num_tasks,
            r@.has_continuation == has_continuation,
            r@.cursor == 0,
            r@.phase == RunPhase::Tasks,
            r@.complete == Seq::new(num_tasks as nat, |i: int| false),
            r@.blocked == Seq::new(num_tasks as nat, |i: int| false),
            !r@.saw_cancelled,
            !r@.progressed,
            !r@.continuation_blocked,
    {
        TaskGroupRun::new(num_tasks, has_continuation)
    }
}

impl ParallelCoroScheduler {
    /// The decisions of running a group of `num_tasks` tasks.
    pub fn start_group<A>(&self, num_tasks: usize, has_continuation: bool) -> (r: TaskGroupRun<A>)
        ensures
            r@.wf(),
            r@.num_tasks == num_tasks,
            r@.has_continuation == has_continuation,
            r@.cursor == 0,
            r@.phase == RunPhase::Tasks,
            r@.complete == Seq::new(num_tasks as nat, |i: int| false),
            r@.blocked == Seq::new(num_tasks as nat, |i: int| false),
            !r@.saw_cancelled,
            !r@.progressed,
            !r@.continuation_blocked,
    {
        TaskGroupRun::new(num_tasks, has_continuation)
    }
}

impl SequentialCoroScheduler {
    /// The decisions of running a group of `num_tasks` tasks.
    pub fn start_group<A>(&self, num_tasks: usize, has_continuation: bool) -> (r: TaskGroupRun<A>)
        ensures
            r@.wf(),
            r@.num_tasks == num_tasks,
            r@.has_continuation == has_continuation,
            r@.cursor == 0,
            r@.phase == RunPhase::Tasks,
            r@.complete == Seq::new(num_tasks as nat, |i: int| false),
            r@.blocked == Seq::new(num_tasks as nat, |i: int| false),
            !r@.saw_cancelled,
            !r@.progressed,
            !r@.continuation_blocked,
    {
        TaskGroupRun::new(num_tasks, has_continuation)
    }
}

impl View for AsyncDualPoolScheduler {
    /// The sizes of the CPU pool and of the IO pool.
    type V = (usize, usize);

    closed spec fn view(&self) -> (usize, usize) {
        (self.cpu_threads, self.io_threads)
    }
}

impl AsyncDualPoolScheduler {
    pub fn new(cpu_threads: usize, io_threads: usize) -> (r: Self)
        ensures
            r@ == (cpu_threads, io_threads),
    {
        AsyncDualPoolScheduler { cpu_threads, io_threads }
    }

    pub fn cpu_threads(&self) -> (r: usize)
        ensures
            r == self@.0,
    {
        self.cpu_threads
    }

    pub fn io_threads(&self) -> (r: usize)
        ensures
            r == self@.1,
    {
        self.io_threads
    }

    /// The decisions of running a group of `num_tasks` tasks.
    pub fn start_group<A>(&self, num_tasks: usize, has_continuation: bool) -> (r: TaskGroupRun<A>)
        ensures
            r@.wf(),
            r@.num_tasks == num_tasks,
            r@.has_continuation == has_continuation,
            r@.cursor == 0,
            r@.phase == RunPhase::Tasks,
            r@.complete == Seq::new(num_tasks as nat, |i: int| false),
            r@.blocked == Seq::new(num_tasks as nat, |i: int| false),
            !r@.saw_cancelled,
            !r@.progressed,
            !r@.continuation_blocked,
    {
        TaskGroupRun::new(num_tasks, has_continuation)
    }
}

impl Default for AsyncDualPoolScheduler {
    fn default() -> (r: Self)
        ensures
            r@ == (4usize, 2usize),
    {
        Self::new(4, 2)
    }
}

} // verus!

verus! {

/// A task runs only when it has not completed and is not waiting on an awaiter: a
/// completed task never runs again, and a blocked task runs only after its awaiter was
/// found ready.
pub proof fn law_only_runnable_tasks_run<A>(v: RunView, ready: bool, status: TaskStatus<A>)
    requires
        v.wf(),
        v.phase == RunPhase::Tasks,
    ensures
        next_spec(v).1 matches RunAction::RunTask(id) ==>
            id < v.num_tasks && !next_spec(v).0.complete[id as int] && !next_spec(v).0.blocked[id as int],
        v.cursor < v.num_tasks ==> (task_awaiter_checked_spec(v, ready).1 matches RunAction::RunTask(id) ==>
            id < v.num_tasks && !task_awaiter_checked_spec(v, ready).0.blocked[id as int]
            && task_awaiter_checked_spec(v, ready).0.complete[id as int] == v.complete[id as int]),
        v.cursor < v.num_tasks ==> (task_returned_spec(v, status).1 matches RunAction::RunTask(id) ==>
            id < v.num_tasks && !task_returned_spec(v, status).0.complete[id as int]
            && !task_returned_spec(v, status).0.blocked[id as int]),
{
    lemma_sweep_wf(v);
    if v.cursor < v.num_tasks {
        lemma_sweep_wf(RunView { cursor: v.cursor + 1, ..v });
        lemma_sweep_wf(returned_view(v, status));
    }
}

/// A completed task stays completed, and a cancelled task is never forgotten, whatever the
/// run is told.
pub proof fn law_completion_is_permanent<A>(v: RunView, ready: bool, status: TaskStatus<A>, i: int)
    requires
        v.wf(),
        v.phase == RunPhase::Tasks,
        0 <= i < v.num_tasks,
        v.complete[i],
    ensures
        next_spec(v).0.complete[i],
        v.saw_cancelled ==> next_spec(v).0.saw_cancelled,
        v.cursor < v.num_tasks ==> task_awaiter_checked_spec(v, ready).0.complete[i],
        v.cursor < v.num_tasks ==> task_returned_spec(v, status).0.complete[i],
        v.cursor < v.num_tasks && v.saw_cancelled ==> task_returned_spec(v, status).0.saw_cancelled,
{
    lemma_sweep_wf(v);
    if v.cursor < v.num_tasks {
        lemma_sweep_wf(RunView { cursor: v.cursor + 1, ..v });
        lemma_sweep_wf(returned_view(v, status));
    }
}

/// A group finishes only when every task completed and none was cancelled, and when it has
/// a continuation, only when the continuation finished; a cancelled task cancels the group.
pub proof fn law_group_outcome<A>(v: RunView, status: TaskStatus<A>)
    requires
        v.wf(),
    ensures
        v.phase == RunPhase::Tasks && next_spec(v).1 == RunAction::Done(GroupOutcome::Finished) ==>
            v.all_complete() && !v.saw_cancelled && !v.has_continuation,
        v.phase == RunPhase::Tasks && next_spec(v).1 == RunAction::Done(GroupOutcome::Cancelled) ==>
            v.all_complete() && v.saw_cancelled,
        v.phase == RunPhase::Tasks && v.cursor == 0 && v.all_complete() ==> (
            if v.saw_cancelled {
                next_spec(v).1 == RunAction::Done(GroupOutcome::Cancelled)
            } else if v.has_continuation {
                next_spec(v).1 == RunAction::RunContinuation { yield_first: false }
            } else {
                next_spec(v).1 == RunAction::Done(GroupOutcome::Finished)
            }
        ),
        v.phase == RunPhase::Continuation ==> (continuation_returned_spec(v, status).1 == RunAction::Done(GroupOutcome::Finished)
            <==> status is Finished),
{
    lemma_sweep_wf(v);
}

} // verus!

verus! {

/// A task is completed only by its own report: after it returns `Finished` or `Cancelled`
/// it is complete, and after `Continue`, `Yield` or `Blocked` no task's completion changes.
pub proof fn law_only_finished_or_cancelled_complete<A>(v: RunView, status: TaskStatus<A>)
    requires
        v.wf(),
        v.cursor < v.num_tasks,
    ensures
        (status is Finished || status is Cancelled) ==>
            task_returned_spec(v, status).0.complete == v.complete.update(v.cursor as int, true),
        !(status is Finished || status is Cancelled) ==> task_returned_spec(v, status).0.complete == v.complete,
        task_returned_spec(v, status).0.saw_cancelled == (v.saw_cancelled || status is Cancelled),
{
    lemma_sweep_wf(returned_view(v, status));
}

/// A group fails only through `failed`: no reported status and no awaiter answer ends it as
/// failed. A continuation that reports `Cancelled` cancels the group, one that reports
/// `Finished` finishes it, and any other report keeps the continuation going.
pub proof fn law_failure_only_from_errors<A>(v: RunView, status: TaskStatus<A>, ready: bool)
    requires
        v.wf(),
    ensures
        v.phase == RunPhase::Tasks ==> next_spec(v).1 != RunAction::Done(GroupOutcome::Failed),
        v.cursor < v.num_tasks ==> task_returned_spec(v, status).1 != RunAction::Done(GroupOutcome::Failed),
        v.cursor < v.num_tasks ==> task_awaiter_checked_spec(v, ready).1 != RunAction::Done(GroupOutcome::Failed),
        continuation_returned_spec(v, status).1 != RunAction::Done(GroupOutcome::Failed),
        continuation_awaiter_checked_spec(v, ready).1 != RunAction::Done(GroupOutcome::Failed),
        (continuation_returned_spec(v, status).1 == RunAction::Done(GroupOutcome::Cancelled)) <==> status is Cancelled,
        (continuation_returned_spec(v, status).1 == RunAction::Done(GroupOutcome::Finished)) <==> status is Finished,
        failed_spec(v).1 == RunAction::Done(GroupOutcome::Failed),
{
    lemma_sweep_wf(v);
    if v.cursor < v.num_tasks {
        lemma_sweep_wf(RunView { cursor: v.cursor + 1, ..v });
        lemma_sweep_wf(returned_view(v, status));
    }
}

} // verus!
