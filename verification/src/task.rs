use vstd::prelude::*;

verus! {

/// A handle that an operator hands out when it blocks; whoever unblocks the operator
/// calls `resume`.
pub trait Resumer {
    /// Whether `resumed` is an answer this resumer gives to `is_resumed`.
    spec fn reports_resumed(&self, resumed: bool) -> bool;

    fn resume(&self);

    fn is_resumed(&self) -> (r: bool)
        ensures
            self.reports_resumed(r),
    ;
}

/// A handle that a blocked task hands to its scheduler to wait on.
pub trait Awaiter {
}

/// What one invocation of a task reports to its scheduler.
pub enum TaskStatus<A> {
    Continue,
    Blocked(A),
    Yield,
    Finished,
    Cancelled,
}

impl<A> TaskStatus<A> {
    pub open spec fn spec_label(&self) -> Seq<char> {
        match self {
            TaskStatus::Continue => "CONTINUE"@,
            TaskStatus::Blocked(_) => "BLOCKED"@,
            TaskStatus::Yield => "YIELD"@,
            TaskStatus::Finished => "FINISHED"@,
            TaskStatus::Cancelled => "CANCELLED"@,
        }
    }

    pub fn is_continue(&self) -> (r: bool)
        ensures
            r == (*self is Continue),
    {
        matches!(self, TaskStatus::Continue)
    }

    pub fn is_blocked(&self) -> (r: bool)
        ensures
            r == (*self is Blocked),
    {
        matches!(self, TaskStatus::Blocked(_))
    }

    pub fn is_yield(&self) -> (r: bool)
        ensures
            r == (*self is Yield),
    {
        matches!(self, TaskStatus::Yield)
    }

    pub fn is_finished(&self) -> (r: bool)
        ensures
            r == (*self is Finished),
    {
        matches!(self, TaskStatus::Finished)
    }

    pub fn is_cancelled(&self) -> (r: bool)
        ensures
            r == (*self is Cancelled),
    {
        matches!(self, TaskStatus::Cancelled)
    }

    /// The awaiter of a blocked status.
    pub fn awaiter(&self) -> (r: Option<&A>)
        ensures
            *self is Blocked ==> r == Some(&self->Blocked_0),
            !(*self is Blocked) ==> r is None,
    {
        match self {
            TaskStatus::Blocked(awaiter) => Some(awaiter),
            _ => None,
        }
    }

    pub fn label(&self) -> (r: &'static str)
        ensures
            r@ == self.spec_label(),
    {
        match self {
            TaskStatus::Continue => "CONTINUE",
            TaskStatus::Blocked(_) => "BLOCKED",
            TaskStatus::Yield => "YIELD",
            TaskStatus::Finished => "FINISHED",
            TaskStatus::Cancelled => "CANCELLED",
        }
    }
}

/// The kind of work a task does, as a hint to schedulers with separate pools.
#[derive(Clone, Copy, Debug, PartialEq, Eq, Structural)]
pub enum TaskHintType {
    Cpu,
    Io,
}

#[derive(Clone, Copy, Debug, PartialEq, Eq, Structural)]
pub struct TaskHint {
    pub kind: TaskHintType,
}

impl Default for TaskHint {
    fn default() -> (r: Self)
        ensures
            r.kind == TaskHintType::Cpu,
    {
        TaskHint { kind: TaskHintType::Cpu }
    }
}

} // verus!
