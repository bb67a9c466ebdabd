use vstd::prelude::*;

use crate::operator::{OpOutput, OpOutputKind};

verus! {

/// The operator call that a channel lane makes next.
/// `Pipe` and `Drain` carry the position of the pipe in the channel.
pub enum ChannelCall<B> {
    Source,
    Pipe { index: usize, input: Option<B> },
    Drain { index: usize },
    Sink { input: Option<B> },
}

/// An operator output that breaks the source/pipe/sink protocol.
#[derive(Clone, Copy, Debug, PartialEq, Eq, Structural)]
pub enum ProtocolViolation {
    InvalidSourceOutput(OpOutputKind),
    InvalidPipeOutput(OpOutputKind),
    InvalidDrainOutput(OpOutputKind),
    InvalidSinkOutput(OpOutputKind),
    PipeYieldHandshake,
    DrainYieldHandshake,
}

impl ProtocolViolation {
    pub open spec fn spec_message(self) -> Seq<char> {
        match self {
            ProtocolViolation::InvalidSourceOutput(k) => "invalid source output: "@ + k.spec_label(),
            ProtocolViolation::InvalidPipeOutput(k) => "invalid pipe output: "@ + k.spec_label(),
            ProtocolViolation::InvalidDrainOutput(k) => "invalid drain output: "@ + k.spec_label(),
            ProtocolViolation::InvalidSinkOutput(k) => "invalid sink output: "@ + k.spec_label(),
            ProtocolViolation::PipeYieldHandshake =>
                "pipe yield handshake must resume with PIPE_YIELD_BACK"@,
            ProtocolViolation::DrainYieldHandshake =>
                "drain yield handshake must resume with PIPE_YIELD_BACK"@,
        }
    }

    /// The message with which the runtime gives up on a protocol violation.
    pub fn message(&self) -> (r: String)
        ensures
            r@ == self.spec_message(),
    {
        match self {
            ProtocolViolation::InvalidSourceOutput(k) => {
                String::from_str("invalid source output: ").concat(k.label())
            },
            ProtocolViolation::InvalidPipeOutput(k) => {
                String::from_str("invalid pipe output: ").concat(k.label())
            },
            ProtocolViolation::InvalidDrainOutput(k) => {
                String::from_str("invalid drain output: ").concat(k.label())
            },
            ProtocolViolation::InvalidSinkOutput(k) => {
                String::from_str("invalid sink output: ").concat(k.label())
            },
            ProtocolViolation::PipeYieldHandshake => {
                String::from_str("pipe yield handshake must resume with PIPE_YIELD_BACK")
            },
            ProtocolViolation::DrainYieldHandshake => {
                String::from_str("drain yield handshake must resume with PIPE_YIELD_BACK")
            },
        }
    }
}

/// What a lane does after an event: call another operator, hand an output back to
/// the task, or give up on a protocol violation.
pub enum ChannelStep<B, R> {
    Call(ChannelCall<B>),
    Done(OpOutput<B, R>),
    Violation(ProtocolViolation),
}

/// The state of one channel on one lane, between operator calls.
pub struct ChannelThreadLocal {
    pub sinking: bool,
    pub pipe_stack: Vec<usize>,
    pub source_done: bool,
    pub draining: usize,
    pub yielded: bool,
}

/// The mathematical model of a lane state.
pub struct LaneView {
    pub sinking: bool,
    pub stack: Seq<usize>,
    pub source_done: bool,
    pub draining: nat,
    pub yielded: bool,
}

impl View for ChannelThreadLocal {
    type V = LaneView;

    open spec fn view(&self) -> LaneView {
        LaneView {
            sinking: self.sinking,
            stack: self.pipe_stack@,
            source_done: self.source_done,
            draining: self.draining as nat,
            yielded: self.yielded,
        }
    }
}

impl LaneView {
    pub open spec fn initial() -> LaneView {
        LaneView {
            sinking: false,
            stack: Seq::empty(),
            source_done: false,
            draining: 0,
            yielded: false,
        }
    }

    pub open spec fn push(self, index: usize) -> LaneView {
        LaneView { stack: self.stack.push(index), ..self }
    }

    /// Every re-entry point on the stack is a pipe of the channel, and the drain
    /// cursor has not run past the draining pipes.
    pub open spec fn wf(self, num_pipes: nat, num_drains: nat) -> bool {
        &&& forall|i: int| 0 <= i < self.stack.len() ==> #[trigger] self.stack[i] < num_pipes
        &&& self.draining <= num_drains
    }
}

/// The positions of the pipes that drain: strictly increasing pipe positions.
pub open spec fn drain_ids_wf(drain_ids: Seq<usize>, num_pipes: nat) -> bool {
    &&& forall|i: int| 0 <= i < drain_ids.len() ==> #[trigger] drain_ids[i] < num_pipes
    &&& forall|i: int, j: int| 0 <= i < j < drain_ids.len() ==> drain_ids[i] < drain_ids[j]
}

/// Hand `input` to the pipe at `index`, or to the sink when no pipe is left.
pub open spec fn enter_chain<B, R>(index: int, input: Option<B>, num_pipes: nat) -> ChannelStep<B, R> {
    if index < num_pipes {
        ChannelStep::Call(ChannelCall::Pipe { index: index as usize, input })
    } else {
        ChannelStep::Call(ChannelCall::Sink { input })
    }
}

/// Drain the next draining pipe, or report the channel finished when none is left.
pub open spec fn drain_or_finish<B, R>(lane: LaneView, drain_ids: Seq<usize>) -> ChannelStep<B, R> {
    if lane.draining < drain_ids.len() {
        ChannelStep::Call(ChannelCall::Drain { index: drain_ids[lane.draining as int] })
    } else {
        ChannelStep::Done(OpOutput::Finished(None))
    }
}

/// Where a lane resumes when its task runs it again: a sink that blocked, then the
/// most recent pipe that still has output or blocked or yielded, then the source, then
/// the draining pipes in order.
pub open spec fn begin_spec<B, R>(lane: LaneView, drain_ids: Seq<usize>) -> (LaneView, ChannelStep<B, R>) {
    if lane.sinking {
        (LaneView { sinking: false, ..lane }, ChannelStep::Call(ChannelCall::Sink { input: None }))
    } else if lane.stack.len() > 0 {
        (
            LaneView { stack: lane.stack.drop_last(), ..lane },
            ChannelStep::Call(ChannelCall::Pipe { index: lane.stack.last(), input: None }),
        )
    } else if !lane.source_done {
        (lane, ChannelStep::Call(ChannelCall::Source))
    } else {
        (lane, drain_or_finish(lane, drain_ids))
    }
}

pub open spec fn after_source_spec<B, R>(
    lane: LaneView,
    out: OpOutput<B, R>,
    drain_ids: Seq<usize>,
    num_pipes: nat,
) -> (LaneView, ChannelStep<B, R>) {
    match out {
        OpOutput::Blocked(r) => (lane, ChannelStep::Done(OpOutput::Blocked(r))),
        OpOutput::Finished(batch) => {
            let done = LaneView { source_done: true, ..lane };
            match batch {
                Some(b) => (done, enter_chain(0, Some(b), num_pipes)),
                None => (done, drain_or_finish(done, drain_ids)),
            }
        },
        OpOutput::SourcePipeHasMore(b) => (lane, enter_chain(0, Some(b), num_pipes)),
        _ => (lane, ChannelStep::Violation(ProtocolViolation::InvalidSourceOutput(out.spec_kind()))),
    }
}

pub open spec fn after_pipe_spec<B, R>(
    lane: LaneView,
    index: usize,
    out: OpOutput<B, R>,
    num_pipes: nat,
) -> (LaneView, ChannelStep<B, R>) {
    if lane.yielded {
        if out is PipeYieldBack {
            (
                LaneView { yielded: false, ..lane.push(index) },
                ChannelStep::Done(OpOutput::PipeYieldBack),
            )
        } else {
            (lane, ChannelStep::Violation(ProtocolViolation::PipeYieldHandshake))
        }
    } else {
        match out {
            OpOutput::PipeYield => (
                LaneView { yielded: true, ..lane.push(index) },
                ChannelStep::Done(OpOutput::PipeYield),
            ),
            OpOutput::Blocked(r) => (lane.push(index), ChannelStep::Done(OpOutput::Blocked(r))),
            OpOutput::PipeSinkNeedsMore => (lane, ChannelStep::Done(OpOutput::PipeSinkNeedsMore)),
            OpOutput::PipeEven(b) => (lane, enter_chain(index + 1, Some(b), num_pipes)),
            OpOutput::SourcePipeHasMore(b) => (
                lane.push(index),
                enter_chain(index + 1, Some(b), num_pipes),
            ),
            _ => (lane, ChannelStep::Violation(ProtocolViolation::InvalidPipeOutput(out.spec_kind()))),
        }
    }
}

pub open spec fn after_drain_spec<B, R>(
    lane: LaneView,
    out: OpOutput<B, R>,
    drain_ids: Seq<usize>,
    num_pipes: nat,
) -> (LaneView, ChannelStep<B, R>) {
    let drain_id = drain_ids[lane.draining as int];
    if lane.yielded {
        if out is PipeYieldBack {
            (LaneView { yielded: false, ..lane }, ChannelStep::Done(OpOutput::PipeYieldBack))
        } else {
            (lane, ChannelStep::Violation(ProtocolViolation::DrainYieldHandshake))
        }
    } else {
        match out {
            OpOutput::PipeYield => (LaneView { yielded: true, ..lane }, ChannelStep::Done(OpOutput::PipeYield)),
            OpOutput::Blocked(r) => (lane, ChannelStep::Done(OpOutput::Blocked(r))),
            OpOutput::SourcePipeHasMore(b) => (lane, enter_chain(drain_id + 1, Some(b), num_pipes)),
            OpOutput::Finished(batch) => {
                let next = LaneView { draining: lane.draining + 1, ..lane };
                match batch {
                    Some(b) => (next, enter_chain(drain_id + 1, Some(b), num_pipes)),
                    None => (next, drain_or_finish(next, drain_ids)),
                }
            },
            _ => (lane, ChannelStep::Violation(ProtocolViolation::InvalidDrainOutput(out.spec_kind()))),
        }
    }
}

pub open spec fn after_sink_spec<B, R>(lane: LaneView, out: OpOutput<B, R>) -> (LaneView, ChannelStep<B, R>) {
    match out {
        OpOutput::PipeSinkNeedsMore => (lane, ChannelStep::Done(OpOutput::PipeSinkNeedsMore)),
        OpOutput::Blocked(r) => (LaneView { sinking: true, ..lane }, ChannelStep::Done(OpOutput::Blocked(r))),
        _ => (lane, ChannelStep::Violation(ProtocolViolation::InvalidSinkOutput(out.spec_kind()))),
    }
}

/// What the lane does with the output of `call`.
pub open spec fn call_spec<B, R>(
    lane: LaneView,
    call: ChannelCall<B>,
    out: OpOutput<B, R>,
    drain_ids: Seq<usize>,
    num_pipes: nat,
) -> (LaneView, ChannelStep<B, R>) {
    match call {
        ChannelCall::Source => after_source_spec(lane, out, drain_ids, num_pipes),
        ChannelCall::Pipe { index, .. } => after_pipe_spec(lane, index, out, num_pipes),
        ChannelCall::Drain { .. } => after_drain_spec(lane, out, drain_ids, num_pipes),
        ChannelCall::Sink { .. } => after_sink_spec(lane, out),
    }
}

/// One run of a lane, given the outputs of the operators it called, in order: it starts
/// where `begin_spec` says and hands each output to the call that is pending.
pub open spec fn run_spec<B, R>(
    lane: LaneView,
    outs: Seq<OpOutput<B, R>>,
    drain_ids: Seq<usize>,
    num_pipes: nat,
) -> (LaneView, ChannelStep<B, R>)
    decreases outs.len(),
{
    if outs.len() == 0 {
        begin_spec(lane, drain_ids)
    } else {
        let (before, step) = run_spec(lane, outs.drop_last(), drain_ids, num_pipes);
        match step {
            ChannelStep::Call(call) => call_spec(before, call, outs.last(), drain_ids, num_pipes),
            _ => (before, step),
        }
    }
}

/// The call that a lane issues is one it can take the output of: a pipe of the
/// channel, or the draining pipe under the drain cursor.
pub open spec fn step_ok<B, R>(lane: LaneView, step: ChannelStep<B, R>, drain_ids: Seq<usize>, num_pipes: nat) -> bool {
    match step {
        ChannelStep::Call(ChannelCall::Pipe { index, .. }) => index < num_pipes,
        ChannelStep::Call(ChannelCall::Drain { index }) => {
            &&& lane.draining < drain_ids.len()
            &&& index == drain_ids[lane.draining as int]
        },
        ChannelStep::Call(ChannelCall::Source) => !lane.source_done,
        _ => true,
    }
}

/// How much work is left in one run of a lane: a bound that every operator call lowers.
pub open spec fn step_rank<B, R>(lane: LaneView, step: ChannelStep<B, R>, drain_ids: Seq<usize>, num_pipes: nat) -> (nat, nat) {
    match step {
        ChannelStep::Call(ChannelCall::Source) => ((drain_ids.len() + 2) as nat, 0),
        ChannelStep::Call(ChannelCall::Drain { .. }) => ((drain_ids.len() - lane.draining + 1) as nat, 0),
        ChannelStep::Call(ChannelCall::Pipe { index, .. }) => (1, (num_pipes - index + 1) as nat),
        ChannelStep::Call(ChannelCall::Sink { .. }) => (1, 0),
        _ => (0, 0),
    }
}

pub open spec fn rank_lt(a: (nat, nat), b: (nat, nat)) -> bool {
    a.0 < b.0 || (a.0 == b.0 && a.1 < b.1)
}

/// A step of a lane that the machine takes next keeps the lane well formed, names a
/// call the lane can take the output of, never reports a finished channel with a batch,
/// and lowers the work left in the run.
pub open spec fn step_good<B, R>(
    before: LaneView,
    call_rank: (nat, nat),
    after: LaneView,
    step: ChannelStep<B, R>,
    drain_ids: Seq<usize>,
    num_pipes: nat,
) -> bool {
    &&& after.wf(num_pipes, drain_ids.len())
    &&& step_ok(after, step, drain_ids, num_pipes)
    &&& (step is Done && step->Done_0 is Finished ==> step->Done_0->Finished_0 is None)
    &&& rank_lt(step_rank(after, step, drain_ids, num_pipes), call_rank)
}

pub proof fn lemma_begin<B, R>(lane: LaneView, drain_ids: Seq<usize>, num_pipes: nat)
    requires
        num_pipes <= usize::MAX,
        lane.wf(num_pipes, drain_ids.len()),
        drain_ids_wf(drain_ids, num_pipes),
    ensures
        ({
            let (after, step) = begin_spec::<B, R>(lane, drain_ids);
            &&& after.wf(num_pipes, drain_ids.len())
            &&& step_ok(after, step, drain_ids, num_pipes)
            &&& (step is Done && step->Done_0 is Finished ==> step->Done_0->Finished_0 is None)
        }),
{
    if !lane.sinking && lane.stack.len() > 0 {
        assert(lane.stack.last() == lane.stack[lane.stack.len() - 1]);
    }
}

pub proof fn lemma_after_source<B, R>(lane: LaneView, out: OpOutput<B, R>, drain_ids: Seq<usize>, num_pipes: nat)
    requires
        num_pipes <= usize::MAX,
        lane.wf(num_pipes, drain_ids.len()),
        drain_ids_wf(drain_ids, num_pipes),
        !lane.source_done,
    ensures
        ({
            let (after, step) = after_source_spec(lane, out, drain_ids, num_pipes);
            step_good(lane, step_rank(lane, ChannelStep::<B, R>::Call(ChannelCall::Source), drain_ids, num_pipes), after, step, drain_ids, num_pipes)
        }),
{
}

pub proof fn lemma_after_pipe<B, R>(lane: LaneView, index: usize, input: Option<B>, out: OpOutput<B, R>, drain_ids: Seq<usize>, num_pipes: nat)
    requires
        num_pipes <= usize::MAX,
        lane.wf(num_pipes, drain_ids.len()),
        drain_ids_wf(drain_ids, num_pipes),
        index < num_pipes,
    ensures
        ({
            let (after, step) = after_pipe_spec(lane, index, out, num_pipes);
            step_good(lane, step_rank(lane, ChannelStep::<B, R>::Call(ChannelCall::Pipe { index, input }), drain_ids, num_pipes), after, step, drain_ids, num_pipes)
        }),
{
    let (after, step) = after_pipe_spec(lane, index, out, num_pipes);
    assert forall|i: int| 0 <= i < lane.push(index).stack.len() implies #[trigger] lane.push(index).stack[i] < num_pipes by {
        if i < lane.stack.len() {
            assert(lane.push(index).stack[i] == lane.stack[i]);
        }
    }
}

pub proof fn lemma_after_drain<B, R>(lane: LaneView, out: OpOutput<B, R>, drain_ids: Seq<usize>, num_pipes: nat)
    requires
        num_pipes <= usize::MAX,
        lane.wf(num_pipes, drain_ids.len()),
        drain_ids_wf(drain_ids, num_pipes),
        lane.draining < drain_ids.len(),
    ensures
        ({
            let (after, step) = after_drain_spec(lane, out, drain_ids, num_pipes);
            step_good(lane, step_rank(lane, ChannelStep::<B, R>::Call(ChannelCall::Drain { index: drain_ids[lane.draining as int] }), drain_ids, num_pipes), after, step, drain_ids, num_pipes)
        }),
{
    assert(drain_ids[lane.draining as int] < num_pipes);
}

pub proof fn lemma_after_sink<B, R>(lane: LaneView, input: Option<B>, out: OpOutput<B, R>, drain_ids: Seq<usize>, num_pipes: nat)
    requires
        num_pipes <= usize::MAX,
        lane.wf(num_pipes, drain_ids.len()),
    ensures
        ({
            let (after, step) = after_sink_spec(lane, out);
            step_good(lane, step_rank(lane, ChannelStep::<B, R>::Call(ChannelCall::Sink { input }), drain_ids, num_pipes), after, step, drain_ids, num_pipes)
        }),
{
}

impl ChannelThreadLocal {
    pub fn new() -> (r: Self)
        ensures
            r@ == LaneView::initial(),
    {
        ChannelThreadLocal {
            sinking: false,
            pipe_stack: Vec::new(),
            source_done: false,
            draining: 0,
            yielded: false,
        }
    }

    fn enter_chain<B, R>(index: usize, input: Option<B>, num_pipes: usize) -> (r: ChannelStep<B, R>)
        ensures
            r == enter_chain::<B, R>(index as int, input, num_pipes as nat),
    {
        if index < num_pipes {
            ChannelStep::Call(ChannelCall::Pipe { index, input })
        } else {
            ChannelStep::Call(ChannelCall::Sink { input })
        }
    }

    fn drain_or_finish<B, R>(&self, drain_ids: &Vec<usize>) -> (r: ChannelStep<B, R>)
        ensures
            r == drain_or_finish::<B, R>(self@, drain_ids@),
    {
        if self.draining < drain_ids.len() {
            ChannelStep::Call(ChannelCall::Drain { index: drain_ids[self.draining] })
        } else {
            ChannelStep::Done(OpOutput::Finished(None))
        }
    }

    /// Decides the first call of a run of this lane.
    pub fn begin<B, R>(&mut self, drain_ids: &Vec<usize>) -> (r: ChannelStep<B, R>)
        ensures
            (final(self)@, r) == begin_spec::<B, R>(old(self)@, drain_ids@),
    {
        if self.sinking {
            self.sinking = false;
            ChannelStep::Call(ChannelCall::Sink { input: None })
        } else if self.pipe_stack.len() > 0 {
            let index = self.pipe_stack.pop().unwrap();
            ChannelStep::Call(ChannelCall::Pipe { index, input: None })
        } else if !self.source_done {
            ChannelStep::Call(ChannelCall::Source)
        } else {
            self.drain_or_finish(drain_ids)
        }
    }

    /// Takes what the source returned.
    pub fn after_source<B, R>(&mut self, out: OpOutput<B, R>, drain_ids: &Vec<usize>, num_pipes: usize) -> (r: ChannelStep<B, R>)
        ensures
            (final(self)@, r) == after_source_spec(old(self)@, out, drain_ids@, num_pipes as nat),
    {
        match out {
            OpOutput::Blocked(r) => ChannelStep::Done(OpOutput::Blocked(r)),
            OpOutput::Finished(batch) => {
                self.source_done = true;
                match batch {
                    Some(b) => Self::enter_chain(0, Some(b), num_pipes),
                    None => self.drain_or_finish(drain_ids),
                }
            },
            OpOutput::SourcePipeHasMore(b) => Self::enter_chain(0, Some(b), num_pipes),
            other => ChannelStep::Violation(ProtocolViolation::InvalidSourceOutput(other.kind())),
        }
    }

    /// Takes what the pipe at `index` returned.
    pub fn after_pipe<B, R>(&mut self, index: usize, out: OpOutput<B, R>, num_pipes: usize) -> (r: ChannelStep<B, R>)
        requires
            index < num_pipes,
        ensures
            (final(self)@, r) == after_pipe_spec(old(self)@, index, out, num_pipes as nat),
    {
        if self.yielded {
            if out.is_pipe_yield_back() {
                self.pipe_stack.push(index);
                self.yielded = false;
                ChannelStep::Done(OpOutput::PipeYieldBack)
            } else {
                ChannelStep::Violation(ProtocolViolation::PipeYieldHandshake)
            }
        } else {
            match out {
                OpOutput::PipeYield => {
                    self.pipe_stack.push(index);
                    self.yielded = true;
                    ChannelStep::Done(OpOutput::PipeYield)
                },
                OpOutput::Blocked(r) => {
                    self.pipe_stack.push(index);
                    ChannelStep::Done(OpOutput::Blocked(r))
                },
                OpOutput::PipeSinkNeedsMore => ChannelStep::Done(OpOutput::PipeSinkNeedsMore),
                OpOutput::PipeEven(b) => Self::enter_chain(index + 1, Some(b), num_pipes),
                OpOutput::SourcePipeHasMore(b) => {
                    self.pipe_stack.push(index);
                    Self::enter_chain(index + 1, Some(b), num_pipes)
                },
                other => ChannelStep::Violation(ProtocolViolation::InvalidPipeOutput(other.kind())),
            }
        }
    }

    /// Takes what the draining pipe under the drain cursor returned.
    pub fn after_drain<B, R>(&mut self, out: OpOutput<B, R>, drain_ids: &Vec<usize>, num_pipes: usize) -> (r: ChannelStep<B, R>)
        requires
            old(self).draining < drain_ids.len(),
            drain_ids_wf(drain_ids@, num_pipes as nat),
        ensures
            (final(self)@, r) == after_drain_spec(old(self)@, out, drain_ids@, num_pipes as nat),
    {
        let drain_id = drain_ids[self.draining];
        if self.yielded {
            if out.is_pipe_yield_back() {
                self.yielded = false;
                ChannelStep::Done(OpOutput::PipeYieldBack)
            } else {
                ChannelStep::Violation(ProtocolViolation::DrainYieldHandshake)
            }
        } else {
            match out {
                OpOutput::PipeYield => {
                    self.yielded = true;
                    ChannelStep::Done(OpOutput::PipeYield)
                },
                OpOutput::Blocked(r) => ChannelStep::Done(OpOutput::Blocked(r)),
                OpOutput::SourcePipeHasMore(b) => Self::enter_chain(drain_id + 1, Some(b), num_pipes),
                OpOutput::Finished(batch) => {
                    self.draining = self.draining + 1;
                    match batch {
                        Some(b) => Self::enter_chain(drain_id + 1, Some(b), num_pipes),
                        None => self.drain_or_finish(drain_ids),
                    }
                },
                other => ChannelStep::Violation(ProtocolViolation::InvalidDrainOutput(other.kind())),
            }
        }
    }

    /// Takes what the sink returned.
    pub fn after_sink<B, R>(&mut self, out: OpOutput<B, R>) -> (r: ChannelStep<B, R>)
        ensures
            (final(self)@, r) == after_sink_spec(old(self)@, out),
    {
        match out {
            OpOutput::PipeSinkNeedsMore => ChannelStep::Done(OpOutput::PipeSinkNeedsMore),
            OpOutput::Blocked(r) => {
                self.sinking = true;
                ChannelStep::Done(OpOutput::Blocked(r))
            },
            other => ChannelStep::Violation(ProtocolViolation::InvalidSinkOutput(other.kind())),
        }
    }
}

} // verus!

verus! {

/// A sink that blocks is run again, with no input, when its lane runs next.
pub proof fn law_blocked_sink_reenters_sink<B, R>(lane: LaneView, r: R, drain_ids: Seq<usize>)
    ensures
        ({
            let (after, step) = after_sink_spec(lane, OpOutput::<B, R>::Blocked(r));
            &&& step == ChannelStep::<B, R>::Done(OpOutput::Blocked(r))
            &&& begin_spec::<B, R>(after, drain_ids).1 == ChannelStep::<B, R>::Call(ChannelCall::Sink { input: None })
        }),
{
}

/// A pipe that blocks is run again, with no input, when its lane runs next.
pub proof fn law_blocked_pipe_reenters_pipe<B, R>(lane: LaneView, index: usize, r: R, drain_ids: Seq<usize>, num_pipes: nat)
    requires
        !lane.sinking,
        !lane.yielded,
    ensures
        ({
            let (after, step) = after_pipe_spec(lane, index, OpOutput::<B, R>::Blocked(r), num_pipes);
            &&& step == ChannelStep::<B, R>::Done(OpOutput::Blocked(r))
            &&& begin_spec::<B, R>(after, drain_ids).1 == ChannelStep::<B, R>::Call(ChannelCall::Pipe { index, input: None })
        }),
{
}

/// A pipe that needs more input leaves its lane as it was: the lane goes back to the most
/// recent pipe that still has output, or else to the source.
pub proof fn law_needs_more_goes_back<B, R>(lane: LaneView, index: usize, drain_ids: Seq<usize>, num_pipes: nat)
    requires
        !lane.yielded,
    ensures
        after_pipe_spec(lane, index, OpOutput::<B, R>::PipeSinkNeedsMore, num_pipes)
            == (lane, ChannelStep::<B, R>::Done(OpOutput::PipeSinkNeedsMore)),
{
}

/// A pipe that has more output hands its batch downstream and is run again, with no
/// input, before anything upstream of it.
pub proof fn law_has_more_reenters_pipe<B, R>(lane: LaneView, index: usize, b: B, drain_ids: Seq<usize>, num_pipes: nat)
    requires
        !lane.yielded,
    ensures
        ({
            let (after, step) = after_pipe_spec(lane, index, OpOutput::<B, R>::SourcePipeHasMore(b), num_pipes);
            &&& after.stack == lane.stack.push(index)
            &&& step == enter_chain::<B, R>(index + 1, Some(b), num_pipes)
            &&& !after.sinking ==> begin_spec::<B, R>(after, drain_ids).1
                == ChannelStep::<B, R>::Call(ChannelCall::Pipe { index, input: None })
        }),
{
    let (after, step) = after_pipe_spec(lane, index, OpOutput::<B, R>::SourcePipeHasMore(b), num_pipes);
    assert(after.stack.last() == index);
}

/// A pipe that yields is run again, with no input, when its lane runs next; it must then
/// answer with `PipeYieldBack`, after which it runs once more with no input.
pub proof fn law_yield_handshake<B, R>(lane: LaneView, index: usize, out: OpOutput<B, R>, drain_ids: Seq<usize>, num_pipes: nat)
    requires
        !lane.sinking,
        !lane.yielded,
    ensures
        ({
            let (yielded, step) = after_pipe_spec(lane, index, OpOutput::<B, R>::PipeYield, num_pipes);
            let (resumed, call) = begin_spec::<B, R>(yielded, drain_ids);
            let (answered, result) = after_pipe_spec(resumed, index, out, num_pipes);
            &&& step == ChannelStep::<B, R>::Done(OpOutput::PipeYield)
            &&& call == ChannelStep::<B, R>::Call(ChannelCall::Pipe { index, input: None })
            &&& out is PipeYieldBack ==> {
                &&& result == ChannelStep::<B, R>::Done(OpOutput::PipeYieldBack)
                &&& !answered.yielded
                &&& begin_spec::<B, R>(answered, drain_ids).1 == ChannelStep::<B, R>::Call(ChannelCall::Pipe { index, input: None })
            }
            &&& !(out is PipeYieldBack) ==> result == ChannelStep::<B, R>::Violation(ProtocolViolation::PipeYieldHandshake)
        }),
{
    let (yielded, step) = after_pipe_spec(lane, index, OpOutput::<B, R>::PipeYield, num_pipes);
    assert(yielded.stack.last() == index);
    let (resumed, call) = begin_spec::<B, R>(yielded, drain_ids);
    assert(resumed.stack == lane.stack);
    let (answered, result) = after_pipe_spec(resumed, index, out, num_pipes);
    if out is PipeYieldBack {
        assert(answered.stack.last() == index);
    }
}

/// Once its source finished, a lane never calls the source again; draining starts only
/// after the source finished, and a lane reports its channel finished only when its source
/// and every draining pipe finished, and never with a batch.
pub proof fn law_source_and_drain_order<B, R>(lane: LaneView, out: OpOutput<B, R>, index: usize, drain_ids: Seq<usize>, num_pipes: nat)
    ensures
        ({
            let (after, step) = begin_spec::<B, R>(lane, drain_ids);
            &&& step is Call && step->Call_0 is Source ==> !lane.source_done
            &&& step is Call && step->Call_0 is Drain ==> lane.source_done && lane.stack.len() == 0 && !lane.sinking
            &&& step is Done ==> step->Done_0 == OpOutput::<B, R>::Finished(None) && lane.source_done
                && lane.draining >= drain_ids.len()
            &&& after.source_done == lane.source_done
        }),
        lane.source_done ==> after_pipe_spec(lane, index, out, num_pipes).0.source_done,
        lane.source_done ==> after_sink_spec(lane, out).0.source_done,
        lane.source_done && lane.draining < drain_ids.len() ==> after_drain_spec(lane, out, drain_ids, num_pipes).0.source_done,
        ({
            let (after, step) = after_source_spec(lane, out, drain_ids, num_pipes);
            step is Done && step->Done_0 is Finished ==> after.source_done && after.draining >= drain_ids.len()
                && step->Done_0 == OpOutput::<B, R>::Finished(None)
        }),
        lane.draining < drain_ids.len() ==> ({
            let (after, step) = after_drain_spec(lane, out, drain_ids, num_pipes);
            step is Done && step->Done_0 is Finished ==> after.draining >= drain_ids.len()
                && step->Done_0 == OpOutput::<B, R>::Finished(None)
        }),
{
}

} // verus!

verus! {

/// A lane that rests at its source, with no draining pipe, calls the source first; when the
/// source finishes with no batch, the run reports the channel finished and calls nothing
/// else.
pub proof fn law_run_source_finishes<B, R>(lane: LaneView, num_pipes: nat)
    requires
        !lane.sinking,
        lane.stack.len() == 0,
        !lane.source_done,
    ensures
        run_spec::<B, R>(lane, Seq::empty(), Seq::empty(), num_pipes).1 == ChannelStep::<B, R>::Call(ChannelCall::Source),
        run_spec(lane, seq![OpOutput::<B, R>::Finished(None)], Seq::empty(), num_pipes)
            == (LaneView { source_done: true, ..lane }, ChannelStep::<B, R>::Done(OpOutput::Finished(None))),
{
    let outs = seq![OpOutput::<B, R>::Finished(None)];
    assert(outs.drop_last() == Seq::<OpOutput<B, R>>::empty());
}

/// One pass through a channel of one pipe: the source hands a batch to the pipe, the pipe
/// hands its batch on to the sink, and when the sink needs more the run hands that back
/// with the lane resting at its source again.
pub proof fn law_run_one_pass<B, R>(lane: LaneView, b1: B, b2: B, drain_ids: Seq<usize>)
    requires
        !lane.sinking,
        !lane.yielded,
        lane.stack.len() == 0,
        !lane.source_done,
    ensures
        ({
            let outs = seq![
                OpOutput::<B, R>::SourcePipeHasMore(b1),
                OpOutput::<B, R>::PipeEven(b2),
                OpOutput::<B, R>::PipeSinkNeedsMore
            ];
            &&& run_spec(lane, outs.take(1), drain_ids, 1).1
                == ChannelStep::<B, R>::Call(ChannelCall::Pipe { index: 0, input: Some(b1) })
            &&& run_spec(lane, outs.take(2), drain_ids, 1).1 == ChannelStep::<B, R>::Call(ChannelCall::Sink { input: Some(b2) })
            &&& run_spec(lane, outs, drain_ids, 1) == (lane, ChannelStep::<B, R>::Done(OpOutput::PipeSinkNeedsMore))
        }),
{
    let outs = seq![
        OpOutput::<B, R>::SourcePipeHasMore(b1),
        OpOutput::<B, R>::PipeEven(b2),
        OpOutput::<B, R>::PipeSinkNeedsMore
    ];
    assert(outs.take(1).drop_last() == Seq::<OpOutput<B, R>>::empty());
    assert(outs.take(2).drop_last() == outs.take(1));
    assert(outs.drop_last() == outs.take(2));
    assert(outs.take(1).last() == OpOutput::<B, R>::SourcePipeHasMore(b1));
    assert(outs.take(2).last() == OpOutput::<B, R>::PipeEven(b2));
    assert(outs.last() == OpOutput::<B, R>::PipeSinkNeedsMore);
    assert(run_spec(lane, Seq::<OpOutput<B, R>>::empty(), drain_ids, 1) == (lane, ChannelStep::<B, R>::Call(ChannelCall::Source)));
    assert(run_spec(lane, outs.take(1), drain_ids, 1)
        == (lane, ChannelStep::<B, R>::Call(ChannelCall::Pipe { index: 0, input: Some(b1) })));
    assert(run_spec(lane, outs.take(2), drain_ids, 1)
        == (lane, ChannelStep::<B, R>::Call(ChannelCall::Sink { input: Some(b2) })));
}

} // verus!

verus! {

/// The outputs that the protocol lets an operator give to `call` on a lane in state `lane`:
/// a source has more, finishes or blocks; a pipe needs more, passes a batch on, has more,
/// yields or blocks, and answers a yield with `PipeYieldBack`; a draining pipe has more,
/// finishes, yields or blocks, and answers a yield likewise; a sink needs more or blocks.
pub open spec fn output_allowed<B, R>(lane: LaneView, call: ChannelCall<B>, out: OpOutput<B, R>) -> bool {
    match call {
        ChannelCall::Source => out is SourcePipeHasMore || out is Finished || out is Blocked,
        ChannelCall::Pipe { .. } => if lane.yielded {
            out is PipeYieldBack
        } else {
            out is PipeSinkNeedsMore || out is PipeEven || out is SourcePipeHasMore || out is PipeYield || out is Blocked
        },
        ChannelCall::Drain { .. } => if lane.yielded {
            out is PipeYieldBack
        } else {
            out is SourcePipeHasMore || out is Finished || out is PipeYield || out is Blocked
        },
        ChannelCall::Sink { .. } => out is PipeSinkNeedsMore || out is Blocked,
    }
}

/// Operators that keep to the protocol never make a lane give up: when every output of a
/// run is one the protocol allows for the call it answered, the run ends in an operator
/// call still pending or in an output handed back, never in a violation.
pub proof fn law_protocol_outputs_never_violate<B, R>(lane: LaneView, outs: Seq<OpOutput<B, R>>, drain_ids: Seq<usize>, num_pipes: nat)
    requires
        forall|i: int| 0 <= i < outs.len() ==> {
            let (before, pending) = #[trigger] run_spec(lane, outs.take(i), drain_ids, num_pipes);
            pending is Call ==> output_allowed(before, pending->Call_0, outs[i])
        },
    ensures
        !(run_spec(lane, outs, drain_ids, num_pipes).1 is Violation),
    decreases outs.len(),
{
    if outs.len() > 0 {
        let prefix = outs.drop_last();
        assert forall|i: int| 0 <= i < prefix.len() implies {
            let (before, pending) = #[trigger] run_spec(lane, prefix.take(i), drain_ids, num_pipes);
            pending is Call ==> output_allowed(before, pending->Call_0, prefix[i])
        } by {
            assert(prefix.take(i) == outs.take(i));
            let _ = run_spec(lane, outs.take(i), drain_ids, num_pipes);
        }
        law_protocol_outputs_never_violate(lane, prefix, drain_ids, num_pipes);
        assert(outs.take(outs.len() - 1) == prefix);
        let _ = run_spec(lane, outs.take(outs.len() - 1), drain_ids, num_pipes);
    }
}

} // verus!

verus! {

/// A pipe that passes a batch on hands it to the very next pipe of the channel, or to the
/// sink when it is the last pipe; the lane itself does not change.
pub proof fn law_even_output_goes_to_next_pipe<B, R>(lane: LaneView, index: usize, b: B, num_pipes: nat)
    requires
        !lane.yielded,
    ensures
        after_pipe_spec(lane, index, OpOutput::<B, R>::PipeEven(b), num_pipes).0 == lane,
        index + 1 < num_pipes ==> after_pipe_spec(lane, index, OpOutput::<B, R>::PipeEven(b), num_pipes).1
            == ChannelStep::<B, R>::Call(ChannelCall::Pipe { index: (index + 1) as usize, input: Some(b) }),
        index + 1 >= num_pipes ==> after_pipe_spec(lane, index, OpOutput::<B, R>::PipeEven(b), num_pipes).1
            == ChannelStep::<B, R>::Call(ChannelCall::Sink { input: Some(b) }),
{
}

/// A pipe that has more output also hands its batch to the very next pipe of the channel,
/// or to the sink when it is the last pipe.
pub proof fn law_has_more_output_goes_to_next_pipe<B, R>(lane: LaneView, index: usize, b: B, num_pipes: nat)
    requires
        !lane.yielded,
    ensures
        index + 1 < num_pipes ==> after_pipe_spec(lane, index, OpOutput::<B, R>::SourcePipeHasMore(b), num_pipes).1
            == ChannelStep::<B, R>::Call(ChannelCall::Pipe { index: (index + 1) as usize, input: Some(b) }),
        index + 1 >= num_pipes ==> after_pipe_spec(lane, index, OpOutput::<B, R>::SourcePipeHasMore(b), num_pipes).1
            == ChannelStep::<B, R>::Call(ChannelCall::Sink { input: Some(b) }),
{
}

/// A source's batch goes to the first pipe, or to the sink when the channel has no pipe.
pub proof fn law_source_batch_goes_to_first_pipe<B, R>(lane: LaneView, b: B, drain_ids: Seq<usize>, num_pipes: nat)
    ensures
        num_pipes > 0 ==> after_source_spec(lane, OpOutput::<B, R>::SourcePipeHasMore(b), drain_ids, num_pipes).1
            == ChannelStep::<B, R>::Call(ChannelCall::Pipe { index: 0, input: Some(b) }),
        num_pipes == 0 ==> after_source_spec(lane, OpOutput::<B, R>::SourcePipeHasMore(b), drain_ids, num_pipes).1
            == ChannelStep::<B, R>::Call(ChannelCall::Sink { input: Some(b) }),
{
}

} // verus!
