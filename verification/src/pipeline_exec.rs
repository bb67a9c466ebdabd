use vstd::prelude::*;

use crate::channel::{
    lemma_after_drain, lemma_after_pipe, lemma_after_sink, lemma_after_source, lemma_begin,
    drain_ids_wf, rank_lt, run_spec, step_ok, step_rank, ChannelCall, ChannelStep, ChannelThreadLocal, LaneView,
    ProtocolViolation,
};
use crate::operator::OpOutput;
use crate::pipeline::{channel_views, ChannelView, PipeInfo, PipelineChannel};
use crate::task::{Resumer, TaskStatus};
use crate::types::{TaskId, ThreadId};

verus! {

/// A call of an operator, named by the operator's identity, with its input.
pub enum OperatorCall<B> {
    Source { source: usize },
    Pipe { pipe: usize, input: Option<B> },
    Drain { pipe: usize },
    Sink { sink: usize, input: Option<B> },
}

/// The operators of a pipeline, looked up by identity, and the task context they run
/// in: where the runtime's operator calls go, and where the awaiter of a blocked task
/// comes from. The operators are the users' own, so what they answer is only named:
/// each call's result is an answer of the operators to that very call.
pub trait ExecContext<B, R, A, E> {
    /// Whether `r` is an answer of the operators to `call` made on lane `thread_id`.
    spec fn answers(&self, call: OperatorCall<B>, thread_id: ThreadId, r: Result<OpOutput<B, R>, E>) -> bool;

    /// Whether `r` is an answer to a request for an awaiter over `resumers`.
    spec fn makes_awaiter(&self, resumers: Vec<R>, r: Result<A, E>) -> bool;

    fn source(&self, source: usize, thread_id: ThreadId) -> (r: Result<OpOutput<B, R>, E>)
        ensures
            self.answers(OperatorCall::Source { source }, thread_id, r),
    ;

    fn pipe(&self, pipe: usize, thread_id: ThreadId, input: Option<B>) -> (r: Result<OpOutput<B, R>, E>)
        ensures
            self.answers(OperatorCall::Pipe { pipe, input }, thread_id, r),
    ;

    fn drain(&self, pipe: usize, thread_id: ThreadId) -> (r: Result<OpOutput<B, R>, E>)
        ensures
            self.answers(OperatorCall::Drain { pipe }, thread_id, r),
    ;

    fn sink(&self, sink: usize, thread_id: ThreadId, input: Option<B>) -> (r: Result<OpOutput<B, R>, E>)
        ensures
            self.answers(OperatorCall::Sink { sink, input }, thread_id, r),
    ;

    fn make_awaiter(&self, resumers: Vec<R>) -> (r: Result<A, E>)
        ensures
            self.makes_awaiter(resumers, r),
    ;
}

/// Why a runtime step did not produce a status.
pub enum StepError<E> {
    /// An operator call failed; the runtime is cancelled from then on.
    Operator(E),
    /// Making the awaiter of a blocked task failed.
    Awaiter(E),
    /// An operator broke the protocol; the runtime cannot go on.
    Protocol(ProtocolViolation),
}

/// The positions of the pipes that drain, in order.
pub open spec fn drain_positions(pipes: Seq<PipeInfo>) -> Seq<usize>
    decreases pipes.len(),
{
    if pipes.len() == 0 {
        Seq::empty()
    } else {
        let rest = drain_positions(pipes.drop_last());
        if pipes.last().has_drain {
            rest.push((pipes.len() - 1) as usize)
        } else {
            rest
        }
    }
}

proof fn lemma_drain_positions(pipes: Seq<PipeInfo>)
    requires
        pipes.len() <= usize::MAX,
    ensures
        drain_ids_wf(drain_positions(pipes), pipes.len()),
        forall|i: int| 0 <= i < drain_positions(pipes).len() ==> pipes[#[trigger] drain_positions(pipes)[i] as int].has_drain,
        forall|k: int| 0 <= k < pipes.len() && pipes[k].has_drain ==> drain_positions(pipes).contains(k as usize),
    decreases pipes.len(),
{
    if pipes.len() > 0 {
        let init = pipes.drop_last();
        lemma_drain_positions(init);
        assert forall|k: int| 0 <= k < pipes.len() && pipes[k].has_drain implies drain_positions(pipes).contains(k as usize) by {
            if k < init.len() {
                assert(init[k] == pipes[k]);
                let j = choose|j: int| 0 <= j < drain_positions(init).len() && drain_positions(init)[j] == k as usize;
                assert(drain_positions(pipes)[j] == k as usize);
            } else {
                assert(drain_positions(pipes).last() == k as usize);
            }
        }
    }
}

/// One channel of a running stage: its operators and the state of each lane.
struct ChannelRuntime {
    source: usize,
    pipes: Vec<usize>,
    sink: usize,
    drain_ids: Vec<usize>,
    thread_locals: Vec<ChannelThreadLocal>,
}

impl ChannelRuntime {
    spec fn lane(&self, thread_id: int) -> LaneView {
        self.thread_locals@[thread_id]@
    }

    spec fn info(&self) -> RuntimeChannel {
        RuntimeChannel { source: self.source, pipes: self.pipes@, drain_ids: self.drain_ids@, sink: self.sink }
    }

    spec fn wf(&self, dop: nat) -> bool {
        &&& drain_ids_wf(self.drain_ids@, self.pipes@.len())
        &&& self.thread_locals@.len() == dop
        &&& forall|t: int| 0 <= t < dop ==> #[trigger] self.lane(t).wf(self.pipes@.len(), self.drain_ids@.len())
    }

    fn new(channel: &PipelineChannel, sink: usize, dop: usize) -> (r: Self)
        ensures
            r.wf(dop as nat),
            r.source == channel@.source,
            r.sink == sink,
            r.pipes@ == channel@.pipes.map_values(|p: PipeInfo| p.id),
            r.drain_ids@ == drain_positions(channel@.pipes),
            forall|t: int| 0 <= t < dop ==> #[trigger] r.lane(t) == LaneView::initial(),
    {
        let infos = channel.pipes();
        let mut pipes: Vec<usize> = Vec::new();
        let mut drain_ids: Vec<usize> = Vec::new();
        let mut i: usize = 0;
        while i < infos.len()
            invariant
                i <= infos@.len(),
                infos@ == channel@.pipes,
                pipes@ == infos@.take(i as int).map_values(|p: PipeInfo| p.id),
                drain_ids@ == drain_positions(infos@.take(i as int)),
            decreases infos@.len() - i,
        {
            assert(infos@.take(i + 1).drop_last() == infos@.take(i as int));
            pipes.push(infos[i].id);
            if infos[i].has_drain {
                drain_ids.push(i);
            }
            assert(pipes@ == infos@.take(i + 1).map_values(|p: PipeInfo| p.id));
            i = i + 1;
        }
        assert(infos@.take(i as int) == infos@);
        proof {
            lemma_drain_positions(infos@);
        }
        let mut thread_locals: Vec<ChannelThreadLocal> = Vec::new();
        let mut t: usize = 0;
        while t < dop
            invariant
                t <= dop,
                thread_locals@.len() == t,
                forall|j: int| 0 <= j < t ==> #[trigger] thread_locals@[j]@ == LaneView::initial(),
            decreases dop - t,
        {
            thread_locals.push(ChannelThreadLocal::new());
            t = t + 1;
        }
        ChannelRuntime { source: channel.source(), pipes, sink, drain_ids, thread_locals }
    }

    /// Runs one lane of the channel until an operator output goes back to the task:
    /// it starts where `begin` says, feeds each operator output to the lane's state
    /// machine, and calls the operator that the machine asks for next. Besides the result
    /// it gives the outputs it took, in order: each is the operators' answer, on this lane,
    /// to the call that the machine had pending (`operator_call` names the operator and the
    /// input), the run is `run_spec` over them, and an operator error is the operators'
    /// answer to the pending call, which ends the run.
    fn step<B, R, A, E, C: ExecContext<B, R, A, E>>(
        &mut self,
        ctx: &C,
        thread_id: ThreadId,
        cancelled: &mut bool,
    ) -> (r: (Result<OpOutput<B, R>, StepError<E>>, Ghost<Seq<OpOutput<B, R>>>))
        requires
            old(self).wf(old(self).thread_locals@.len() as nat),
            thread_id < old(self).thread_locals@.len(),
        ensures
            final(self).wf(old(self).thread_locals@.len() as nat),
            final(self).source == old(self).source,
            final(self).sink == old(self).sink,
            final(self).pipes@ == old(self).pipes@,
            final(self).drain_ids@ == old(self).drain_ids@,
            forall|t: int| 0 <= t < old(self).thread_locals@.len() && t != thread_id ==>
                #[trigger] final(self).lane(t) == old(self).lane(t),
            *old(cancelled) ==> r.0 == Ok::<OpOutput<B, R>, StepError<E>>(OpOutput::Cancelled) && *final(self) == *old(self)
                && r.1@ == Seq::<OpOutput<B, R>>::empty(),
            *final(cancelled) == (*old(cancelled) || r.0 is Err && r.0->Err_0 is Operator),
            !*old(cancelled) ==> ({
                let (lane, step) = run_spec(old(self).lane(thread_id as int), r.1@, old(self).drain_ids@, old(self).pipes@.len());
                &&& final(self).lane(thread_id as int) == lane
                &&& r.0 is Ok ==> step == ChannelStep::<B, R>::Done(r.0->Ok_0)
                &&& r.0 is Err && r.0->Err_0 is Protocol ==> step == ChannelStep::<B, R>::Violation(r.0->Err_0->Protocol_0)
                &&& r.0 is Err && r.0->Err_0 is Operator ==> step is Call
                    && ctx.answers(operator_call(old(self).info(), step->Call_0), thread_id, Err(r.0->Err_0->Operator_0))
                &&& forall|i: int| 0 <= i < r.1@.len() ==> {
                    let pending = #[trigger] run_spec(old(self).lane(thread_id as int), r.1@.take(i), old(self).drain_ids@, old(self).pipes@.len()).1;
                    &&& pending is Call
                    &&& ctx.answers(operator_call(old(self).info(), pending->Call_0), thread_id, Ok(r.1@[i]))
                }
            }),
            r.0 is Ok && r.0->Ok_0 is Finished ==> r.0->Ok_0->Finished_0 is None,
            r.0 is Err ==> !(r.0->Err_0 is Awaiter),
    {
        if *cancelled {
            return (Ok(OpOutput::Cancelled), Ghost(Seq::empty()));
        }
        let ghost dop = self.thread_locals@.len() as nat;
        let ghost lane0 = self.lane(thread_id as int);
        let num_pipes = self.pipes.len();
        proof {
            lemma_begin::<B, R>(self.lane(thread_id as int), self.drain_ids@, num_pipes as nat);
        }
        let ghost old_locals = self.thread_locals@;
        let mut next: ChannelStep<B, R> = self.thread_locals[thread_id].begin(&self.drain_ids);
        let ghost mut outs: Seq<OpOutput<B, R>> = Seq::empty();
        assert forall|t: int| 0 <= t < dop && t != thread_id implies #[trigger] self.lane(t) == old(self).lane(t) by {
            assert(self.thread_locals@[t] == old_locals[t]);
        }
        assert forall|t: int| 0 <= t < dop implies #[trigger] self.lane(t).wf(self.pipes@.len(), self.drain_ids@.len()) by {
            if t != thread_id {
                assert(self.lane(t) == old(self).lane(t));
            }
        }
        loop
            invariant
                self.wf(dop),
                dop == old(self).thread_locals@.len(),
                thread_id < dop,
                num_pipes == self.pipes@.len(),
                !*cancelled,
                !*old(cancelled),
                lane0 == old(self).lane(thread_id as int),
                self.source == old(self).source,
                self.sink == old(self).sink,
                self.pipes@ == old(self).pipes@,
                self.drain_ids@ == old(self).drain_ids@,
                forall|t: int| 0 <= t < dop && t != thread_id ==> #[trigger] self.lane(t) == old(self).lane(t),
                step_ok(self.lane(thread_id as int), next, self.drain_ids@, num_pipes as nat),
                next is Done && next->Done_0 is Finished ==> next->Done_0->Finished_0 is None,
                (self.lane(thread_id as int), next) == run_spec(lane0, outs, self.drain_ids@, num_pipes as nat),
                forall|i: int| 0 <= i < outs.len() ==> {
                    let pending = #[trigger] run_spec(lane0, outs.take(i), self.drain_ids@, num_pipes as nat).1;
                    &&& pending is Call
                    &&& ctx.answers(operator_call(old(self).info(), pending->Call_0), thread_id, Ok(outs[i]))
                },
            decreases
                step_rank(self.lane(thread_id as int), next, self.drain_ids@, num_pipes as nat).0,
                step_rank(self.lane(thread_id as int), next, self.drain_ids@, num_pipes as nat).1,
        {
            let ghost before = self.lane(thread_id as int);
            let ghost locals_before = self.thread_locals@;
            let ghost self_before = *self;
            let ghost rank_before = step_rank(before, next, self.drain_ids@, num_pipes as nat);
            let ghost next_before = next;
            let ghost outs_before = outs;
            match next {
                ChannelStep::Done(out) => {
                    return (Ok(out), Ghost(outs));
                },
                ChannelStep::Violation(v) => {
                    return (Err(StepError::Protocol(v)), Ghost(outs));
                },
                ChannelStep::Call(ChannelCall::Source) => {
                    let answer = ctx.source(self.source, thread_id);
                    match answer {
                        Ok(out) => {
                            proof {
                                lemma_after_source(before, out, self.drain_ids@, num_pipes as nat);
                                outs = outs.push(out);
                            }
                            next = self.thread_locals[thread_id].after_source(out, &self.drain_ids, num_pipes);
                        },
                        Err(e) => {
                            *cancelled = true;
                            return (Err(StepError::Operator(e)), Ghost(outs));
                        },
                    }
                },
                ChannelStep::Call(ChannelCall::Pipe { index, input }) => {
                    let ghost input_copy = input;
                    let answer = ctx.pipe(self.pipes[index], thread_id, input);
                    match answer {
                        Ok(out) => {
                            proof {
                                lemma_after_pipe(before, index, input_copy, out, self.drain_ids@, num_pipes as nat);
                                outs = outs.push(out);
                            }
                            next = self.thread_locals[thread_id].after_pipe(index, out, num_pipes);
                        },
                        Err(e) => {
                            *cancelled = true;
                            return (Err(StepError::Operator(e)), Ghost(outs));
                        },
                    }
                },
                ChannelStep::Call(ChannelCall::Drain { index }) => {
                    let answer = ctx.drain(self.pipes[index], thread_id);
                    match answer {
                        Ok(out) => {
                            proof {
                                lemma_after_drain(before, out, self.drain_ids@, num_pipes as nat);
                                outs = outs.push(out);
                            }
                            next = self.thread_locals[thread_id].after_drain(out, &self.drain_ids, num_pipes);
                        },
                        Err(e) => {
                            *cancelled = true;
                            return (Err(StepError::Operator(e)), Ghost(outs));
                        },
                    }
                },
                ChannelStep::Call(ChannelCall::Sink { input }) => {
                    let ghost input_copy = input;
                    let answer = ctx.sink(self.sink, thread_id, input);
                    match answer {
                        Ok(out) => {
                            proof {
                                lemma_after_sink(before, input_copy, out, self.drain_ids@, num_pipes as nat);
                                outs = outs.push(out);
                            }
                            next = self.thread_locals[thread_id].after_sink(out);
                        },
                        Err(e) => {
                            *cancelled = true;
                            return (Err(StepError::Operator(e)), Ghost(outs));
                        },
                    }
                },
            }
            proof {
                assert(outs.drop_last() == outs_before);
                assert(outs.take(outs_before.len() as int) == outs_before);
                assert forall|i: int| 0 <= i < outs.len() implies {
                    let pending = #[trigger] run_spec(lane0, outs.take(i), self.drain_ids@, num_pipes as nat).1;
                    &&& pending is Call
                    &&& ctx.answers(operator_call(old(self).info(), pending->Call_0), thread_id, Ok(outs[i]))
                } by {
                    if i < outs_before.len() {
                        assert(outs.take(i) == outs_before.take(i));
                        assert(outs[i] == outs_before[i]);
                    }
                }
            }
            assert forall|t: int| 0 <= t < dop && t != thread_id implies #[trigger] self.lane(t) == old(self).lane(t) by {
                assert(self.thread_locals@[t] == locals_before[t]);
                assert(self_before.lane(t) == old(self).lane(t));
            }
            assert forall|t: int| 0 <= t < dop implies #[trigger] self.lane(t).wf(self.pipes@.len(), self.drain_ids@.len()) by {
                if t != thread_id {
                    assert(self.lane(t) == old(self).lane(t));
                    assert(self_before.lane(t).wf(self.pipes@.len(), self.drain_ids@.len()));
                }
            }
            assert(rank_lt(step_rank(self.lane(thread_id as int), next, self.drain_ids@, num_pipes as nat), rank_before));
        }
    }
}

/// What a lane of the runtime remembers of each channel: whether it finished, and the
/// resumer it is blocked on.
pub struct ExecThreadLocal<R> {
    pub finished: Vec<bool>,
    pub resumers: Vec<Option<R>>,
}

impl<R> ExecThreadLocal<R> {
    pub fn new(num_channels: usize) -> (r: Self)
        ensures
            r.finished@ == Seq::new(num_channels as nat, |i: int| false),
            r.resumers@.len() == num_channels,
            forall|i: int| 0 <= i < num_channels ==> #[trigger] r.resumers@[i] is None,
    {
        let mut finished: Vec<bool> = Vec::new();
        let mut resumers: Vec<Option<R>> = Vec::new();
        let mut i: usize = 0;
        while i < num_channels
            invariant
                i <= num_channels,
                finished@ == Seq::new(i as nat, |j: int| false),
                resumers@.len() == i,
                forall|j: int| 0 <= j < i ==> #[trigger] resumers@[j] is None,
            decreases num_channels - i,
        {
            finished.push(false);
            resumers.push(None);
            i = i + 1;
        }
        ExecThreadLocal { finished, resumers }
    }
}

} // verus!

verus! {

/// What the runtime keeps of one channel: the identities of its operators and the
/// positions of its draining pipes.
pub struct RuntimeChannel {
    pub source: usize,
    pub pipes: Seq<usize>,
    pub drain_ids: Seq<usize>,
    pub sink: usize,
}

/// The runtime channel made of `channel`, feeding `sink`.
pub open spec fn runtime_channel(channel: ChannelView, sink: usize) -> RuntimeChannel {
    RuntimeChannel {
        source: channel.source,
        pipes: channel.pipes.map_values(|p: PipeInfo| p.id),
        drain_ids: drain_positions(channel.pipes),
        sink,
    }
}

/// The operator call that a pending lane call makes on `ch`.
pub open spec fn operator_call<B>(ch: RuntimeChannel, call: ChannelCall<B>) -> OperatorCall<B> {
    match call {
        ChannelCall::Source => OperatorCall::Source { source: ch.source },
        ChannelCall::Pipe { index, input } => OperatorCall::Pipe { pipe: ch.pipes[index as int], input },
        ChannelCall::Drain { index } => OperatorCall::Drain { pipe: ch.pipes[index as int] },
        ChannelCall::Sink { input } => OperatorCall::Sink { sink: ch.sink, input },
    }
}

/// The mathematical model of a runtime: its channels, and for each lane and channel the
/// state of the channel's lane machine, whether the channel finished on the lane, and the
/// resumer the lane waits on for the channel.
pub struct ExecView<R> {
    pub dop: nat,
    pub num_channels: nat,
    pub cancelled: bool,
    pub channels: Seq<RuntimeChannel>,
    pub lanes: Seq<Seq<LaneView>>,
    pub finished: Seq<Seq<bool>>,
    pub blocked: Seq<Seq<bool>>,
    pub resumers: Seq<Seq<Option<R>>>,
}

/// The last output that a runtime step saw.
pub enum LastOutcome {
    Continue,
    Yield,
    Cancelled,
}

/// What a channel of a lane met during a runtime step: whether its resumer had fired when
/// asked, and the outputs of the operators that its run called, in order.
pub struct ChannelObs<B, R> {
    pub resumed: bool,
    pub outs: Seq<OpOutput<B, R>>,
}

/// How a runtime step failed: an operator call failed, or an operator broke the protocol.
pub enum StepFailure {
    Operator,
    Protocol(ProtocolViolation),
}

/// A runtime step on one lane, part way through the channels.
pub struct LaneScan<R> {
    pub lanes: Seq<LaneView>,
    pub finished: Seq<bool>,
    pub resumers: Seq<Option<R>>,
    pub all_finished: bool,
    pub all_blocked: bool,
    pub pending: Seq<R>,
    pub last: LastOutcome,
    pub stop: bool,
    pub failure: Option<StepFailure>,
}

/// What a runtime step on one lane ends with.
pub enum LaneOutcome<R> {
    Finished,
    /// Every channel left waits on a resumer: these, in channel order.
    Blocked(Seq<R>),
    Yield,
    Continue,
    Cancelled,
    Failed(StepFailure),
}

pub open spec fn scan_start<R>(v: ExecView<R>, t: int) -> LaneScan<R> {
    LaneScan {
        lanes: v.lanes[t],
        finished: v.finished[t],
        resumers: v.resumers[t],
        all_finished: true,
        all_blocked: true,
        pending: Seq::empty(),
        last: LastOutcome::Continue,
        stop: false,
        failure: None,
    }
}

/// Channel `c` in a runtime step: skipped once the step stopped or when it finished; still
/// waiting when its resumer has not fired; otherwise run, its resumer dropped, and its
/// output taken: a finished or blocked channel lets the step go on, any other output
/// stops it.
pub open spec fn scan_channel<B, R>(ch: RuntimeChannel, s: LaneScan<R>, c: int, ob: ChannelObs<B, R>) -> LaneScan<R> {
    if s.stop || s.finished[c] {
        s
    } else if s.resumers[c] is Some && !ob.resumed {
        LaneScan { all_finished: false, pending: s.pending.push(s.resumers[c]->0), ..s }
    } else {
        let (lane, step) = run_spec(s.lanes[c], ob.outs, ch.drain_ids, ch.pipes.len());
        let ran = LaneScan { lanes: s.lanes.update(c, lane), resumers: s.resumers.update(c, None), ..s };
        let stopped = LaneScan { all_finished: false, all_blocked: false, stop: true, ..ran };
        match step {
            ChannelStep::Done(out) => match out {
                OpOutput::Finished(_) => LaneScan {
                    finished: s.finished.update(c, true),
                    all_blocked: false,
                    last: LastOutcome::Continue,
                    ..ran
                },
                OpOutput::Blocked(r) => LaneScan {
                    resumers: s.resumers.update(c, Some(r)),
                    pending: s.pending.push(r),
                    all_finished: false,
                    last: LastOutcome::Continue,
                    ..ran
                },
                OpOutput::PipeYield => LaneScan { last: LastOutcome::Yield, ..stopped },
                OpOutput::Cancelled => LaneScan { last: LastOutcome::Cancelled, ..stopped },
                _ => LaneScan { last: LastOutcome::Continue, ..stopped },
            },
            ChannelStep::Violation(v) => LaneScan { failure: Some(StepFailure::Protocol(v)), ..stopped },
            ChannelStep::Call(_) => LaneScan { failure: Some(StepFailure::Operator), ..stopped },
        }
    }
}

/// A runtime step over the first `obs.len()` channels of a lane.
pub open spec fn scan_spec<B, R>(channels: Seq<RuntimeChannel>, start: LaneScan<R>, obs: Seq<ChannelObs<B, R>>) -> LaneScan<R>
    decreases obs.len(),
{
    if obs.len() == 0 {
        start
    } else {
        let i = obs.len() - 1;
        scan_channel(channels[i], scan_spec(channels, start, obs.drop_last()), i, obs.last())
    }
}

/// A failure ends the step; otherwise it reports `Finished` when every channel finished,
/// `Blocked` when every channel left waits and one does, and else what the last channel
/// that ran gave.
pub open spec fn scan_outcome<R>(s: LaneScan<R>) -> LaneOutcome<R> {
    match s.failure {
        Some(f) => LaneOutcome::Failed(f),
        None => if s.all_finished {
            LaneOutcome::Finished
        } else if s.all_blocked && s.pending.len() > 0 {
            LaneOutcome::Blocked(s.pending)
        } else {
            match s.last {
                LastOutcome::Yield => LaneOutcome::Yield,
                LastOutcome::Cancelled => LaneOutcome::Cancelled,
                LastOutcome::Continue => LaneOutcome::Continue,
            }
        },
    }
}

/// The result of a step that ends with `o`; for `Blocked` it is the awaiter that the
/// context made of those resumers, or the context's error.
pub open spec fn outcome_matches<A, E, R>(o: LaneOutcome<R>, r: Result<TaskStatus<A>, StepError<E>>) -> bool {
    match o {
        LaneOutcome::Finished => r == Ok::<TaskStatus<A>, StepError<E>>(TaskStatus::Finished),
        LaneOutcome::Blocked(_) => (r is Ok && r->Ok_0 is Blocked) || (r is Err && r->Err_0 is Awaiter),
        LaneOutcome::Yield => r == Ok::<TaskStatus<A>, StepError<E>>(TaskStatus::Yield),
        LaneOutcome::Continue => r == Ok::<TaskStatus<A>, StepError<E>>(TaskStatus::Continue),
        LaneOutcome::Cancelled => r == Ok::<TaskStatus<A>, StepError<E>>(TaskStatus::Cancelled),
        LaneOutcome::Failed(StepFailure::Operator) => r is Err && r->Err_0 is Operator,
        LaneOutcome::Failed(StepFailure::Protocol(v)) => r == Err::<TaskStatus<A>, StepError<E>>(StepError::Protocol(v)),
    }
}

/// What channel `c` met in a step is what it was answered: its resumer's answer, when it
/// had one, is an answer that resumer gives, and when the channel ran, each output it took
/// is the operators' answer, on lane `t`, to the call that its run had pending.
pub open spec fn channel_answered<A, B, E, R: Resumer, C: ExecContext<B, R, A, E>>(
    ctx: C,
    ch: RuntimeChannel,
    s: LaneScan<R>,
    c: int,
    ob: ChannelObs<B, R>,
    t: ThreadId,
) -> bool {
    s.stop || s.finished[c] || {
        &&& s.resumers[c] is Some ==> s.resumers[c]->0.reports_resumed(ob.resumed)
        &&& !(s.resumers[c] is Some && !ob.resumed) ==> forall|i: int| 0 <= i < ob.outs.len() ==> {
            let pending = #[trigger] run_spec(s.lanes[c], ob.outs.take(i), ch.drain_ids, ch.pipes.len()).1;
            &&& pending is Call
            &&& ctx.answers(operator_call(ch, pending->Call_0), t, Ok(ob.outs[i]))
        }
    }
}

/// The awaiter, or the error, that a `Blocked` step result holds.
pub open spec fn awaiter_answer<A, E>(r: Result<TaskStatus<A>, StepError<E>>) -> Result<A, E> {
    match r {
        Ok(status) => Ok(status->Blocked_0),
        Err(e) => Err(e->Awaiter_0),
    }
}

/// A step of lane `t` that took `before` to `after` and returned `r` is the model run
/// over what the lane's channels met, `obs`, up to where the step stopped; what they met
/// is what the operators and resumers answered to the calls the model makes; a blocked
/// lane's awaiter is the context's answer to a request over copies of the pending
/// resumers, in channel order; a failed operator call is the last call, and its error is
/// the operators' answer to it.
pub open spec fn step_matches<A, B, E, R: Resumer + Clone, C: ExecContext<B, R, A, E>>(
    ctx: C,
    before: ExecView<R>,
    t: ThreadId,
    obs: Seq<ChannelObs<B, R>>,
    after: ExecView<R>,
    r: Result<TaskStatus<A>, StepError<E>>,
) -> bool {
    let start = scan_start(before, t as int);
    let s = scan_spec(before.channels, start, obs);
    &&& obs.len() <= before.num_channels
    &&& (obs.len() == before.num_channels || s.stop)
    &&& after.lanes[t as int] == s.lanes
    &&& after.finished[t as int] == s.finished
    &&& after.resumers[t as int] == s.resumers
    &&& outcome_matches(scan_outcome(s), r)
    &&& forall|c: int| 0 <= c < obs.len() ==>
        channel_answered(ctx, before.channels[c], #[trigger] scan_spec(before.channels, start, obs.take(c)), c, obs[c], t)
    &&& scan_outcome(s) matches LaneOutcome::Blocked(pending) ==> exists|copies: Vec<R>| {
        &&& copies@.len() == pending.len()
        &&& forall|i: int| 0 <= i < copies@.len() ==> cloned(pending[i], #[trigger] copies@[i])
        &&& #[trigger] ctx.makes_awaiter(copies, awaiter_answer(r))
    }
    &&& scan_outcome(s) == LaneOutcome::<R>::Failed(StepFailure::Operator) ==> {
        let c = obs.len() - 1;
        let ch = before.channels[c];
        let pending = run_spec(scan_spec(before.channels, start, obs.drop_last()).lanes[c], obs[c].outs, ch.drain_ids, ch.pipes.len()).1;
        ctx.answers(operator_call(ch, pending->Call_0), t, Err(r->Err_0->Operator_0))
    }
}

/// While a step has not failed and some channel it met is unfinished, the step does not
/// report every channel finished; a step that stopped early met an unfinished channel.
proof fn lemma_scan_unfinished<B, R>(channels: Seq<RuntimeChannel>, start: LaneScan<R>, obs: Seq<ChannelObs<B, R>>)
    requires
        start.all_finished,
        !start.stop,
        start.failure is None,
        obs.len() <= start.finished.len(),
    ensures
        ({
            let s = scan_spec(channels, start, obs);
            &&& s.finished.len() == start.finished.len()
            &&& s.stop ==> !s.all_finished
            &&& !s.all_finished ==> exists|j: int| 0 <= j < obs.len() && !(#[trigger] s.finished[j])
        }),
    decreases obs.len(),
{
    if obs.len() > 0 {
        let prev_obs = obs.drop_last();
        lemma_scan_unfinished(channels, start, prev_obs);
        let prev = scan_spec(channels, start, prev_obs);
        let c = obs.len() - 1;
        let s = scan_spec(channels, start, obs);
        assert(s == scan_channel(channels[c], prev, c, obs.last()));
        if !s.all_finished {
            if !prev.all_finished {
                let j = choose|j: int| 0 <= j < prev_obs.len() && !(#[trigger] prev.finished[j]);
                assert(s.finished[j] == prev.finished[j]);
            } else {
                assert(!s.finished[c]);
            }
        }
    }
}

/// The small-step runtime of one stage: each call of `step` on a lane runs the lane's
/// channels in order until one of them does not finish or block.
pub struct PipeExec<R> {
    dop: usize,
    channels: Vec<ChannelRuntime>,
    thread_locals: Vec<ExecThreadLocal<R>>,
    cancelled: bool,
}

impl<R> View for PipeExec<R> {
    type V = ExecView<R>;

    closed spec fn view(&self) -> ExecView<R> {
        ExecView {
            dop: self.dop as nat,
            num_channels: self.channels@.len(),
            cancelled: self.cancelled,
            channels: self.channels@.map_values(|ch: ChannelRuntime| ch.info()),
            lanes: Seq::new(
                self.dop as nat,
                |t: int| Seq::new(self.channels@.len(), |c: int| self.channels@[c].lane(t)),
            ),
            finished: self.thread_locals@.map_values(|tl: ExecThreadLocal<R>| tl.finished@),
            blocked: self.thread_locals@.map_values(
                |tl: ExecThreadLocal<R>| tl.resumers@.map_values(|o: Option<R>| o is Some),
            ),
            resumers: self.thread_locals@.map_values(|tl: ExecThreadLocal<R>| tl.resumers@),
        }
    }
}

impl<R> PipeExec<R> {
    /// The runtime's own consistency: every channel has one lane per task, and every lane
    /// keeps one flag and one resumer slot per channel.
    pub closed spec fn wf(&self) -> bool {
        &&& self.channels@.len() <= usize::MAX
        &&& self.thread_locals@.len() == self.dop
        &&& forall|c: int| 0 <= c < self.channels@.len() ==> #[trigger] self.channels@[c].wf(self.dop as nat)
        &&& forall|t: int| 0 <= t < self.dop ==> {
            &&& (#[trigger] self.thread_locals@[t]).finished@.len() == self.channels@.len()
            &&& self.thread_locals@[t].resumers@.len() == self.channels@.len()
        }
    }

    pub proof fn lemma_view_shape(&self)
        requires
            self.wf(),
        ensures
            self@.finished.len() == self@.dop,
            self@.blocked.len() == self@.dop,
            self@.lanes.len() == self@.dop,
            self@.resumers.len() == self@.dop,
            self@.channels.len() == self@.num_channels,
            forall|t: int| 0 <= t < self@.dop ==> #[trigger] self@.finished[t].len() == self@.num_channels,
            forall|t: int| 0 <= t < self@.dop ==> #[trigger] self@.blocked[t].len() == self@.num_channels,
            forall|t: int| 0 <= t < self@.dop ==> #[trigger] self@.lanes[t].len() == self@.num_channels,
            forall|t: int| 0 <= t < self@.dop ==> #[trigger] self@.resumers[t].len() == self@.num_channels,
    {
    }

    proof fn lemma_view_cells(&self)
        requires
            self.wf(),
        ensures
            forall|t: int, c: int| 0 <= t < self.dop && 0 <= c < self.channels@.len() ==>
                #[trigger] self@.finished[t][c] == self.thread_locals@[t].finished@[c],
            forall|t: int, c: int| 0 <= t < self.dop && 0 <= c < self.channels@.len() ==>
                #[trigger] self@.blocked[t][c] == self.thread_locals@[t].resumers@[c] is Some,
            forall|t: int| 0 <= t < self.dop ==> #[trigger] self@.finished[t] == self.thread_locals@[t].finished@,
            forall|t: int| 0 <= t < self.dop ==> #[trigger] self@.resumers[t] == self.thread_locals@[t].resumers@,
            forall|t: int| 0 <= t < self.dop ==>
                #[trigger] self@.lanes[t] == Seq::new(self.channels@.len(), |c: int| self.channels@[c].lane(t)),
            forall|c: int| 0 <= c < self.channels@.len() ==> #[trigger] self@.channels[c] == self.channels@[c].info(),
    {
        assert forall|t: int, c: int| 0 <= t < self.dop && 0 <= c < self.channels@.len() implies
            #[trigger] self@.blocked[t][c] == self.thread_locals@[t].resumers@[c] is Some by {
            assert(self@.blocked[t] == self.thread_locals@[t].resumers@.map_values(|o: Option<R>| o is Some));
        }
    }

    /// A runtime for `channels` that all feed `sink`, with `dop` lanes.
    pub fn new(channels: &[PipelineChannel], sink: usize, dop: usize) -> (r: Self)
        ensures
            r.wf(),
            r@.dop == dop,
            r@.num_channels == channels@.len(),
            !r@.cancelled,
            r@.channels == channel_views(channels@).map_values(|c: ChannelView| runtime_channel(c, sink)),
            forall|t: int, c: int| 0 <= t < dop && 0 <= c < channels@.len() ==> {
                &&& !r@.finished[t][c]
                &&& !r@.blocked[t][c]
                &&& r@.resumers[t][c] is None
                &&& r@.lanes[t][c] == LaneView::initial()
            },
    {
        let mut runtimes: Vec<ChannelRuntime> = Vec::new();
        let mut i: usize = 0;
        while i < channels.len()
            invariant
                i <= channels@.len(),
                runtimes@.len() == i,
                forall|c: int| 0 <= c < i ==> #[trigger] runtimes@[c].wf(dop as nat),
                forall|c: int| 0 <= c < i ==> #[trigger] runtimes@[c].info() == runtime_channel(channels@[c]@, sink),
                forall|c: int, t: int| 0 <= c < i && 0 <= t < dop ==> #[trigger] runtimes@[c].lane(t) == LaneView::initial(),
            decreases channels@.len() - i,
        {
            let rt = ChannelRuntime::new(&channels[i], sink, dop);
            assert(rt.pipes@ == channels@[i as int]@.pipes.map_values(|p: PipeInfo| p.id));
            runtimes.push(rt);
            assert forall|c: int, t: int| 0 <= c < i + 1 && 0 <= t < dop implies #[trigger] runtimes@[c].lane(t) == LaneView::initial() by {
                if c == i {
                    assert(runtimes@[c] == rt);
                }
            }
            i = i + 1;
        }
        let mut thread_locals: Vec<ExecThreadLocal<R>> = Vec::new();
        let mut t: usize = 0;
        while t < dop
            invariant
                t <= dop,
                thread_locals@.len() == t,
                forall|j: int| 0 <= j < t ==> {
                    &&& (#[trigger] thread_locals@[j]).finished@ == Seq::new(channels@.len(), |i: int| false)
                    &&& thread_locals@[j].resumers@.len() == channels@.len()
                    &&& forall|c: int| 0 <= c < channels@.len() ==> #[trigger] thread_locals@[j].resumers@[c] is None
                },
            decreases dop - t,
        {
            thread_locals.push(ExecThreadLocal::new(channels.len()));
            t = t + 1;
        }
        let r = PipeExec { dop, channels: runtimes, thread_locals, cancelled: false };
        proof {
            r.lemma_view_cells();
            assert(r@.channels =~= channel_views(channels@).map_values(|c: ChannelView| runtime_channel(c, sink)));
            assert forall|t: int, c: int| 0 <= t < dop && 0 <= c < channels@.len() implies {
                &&& !r@.finished[t][c]
                &&& !r@.blocked[t][c]
                &&& r@.resumers[t][c] is None
                &&& r@.lanes[t][c] == LaneView::initial()
            } by {
                assert(r.thread_locals@[t].resumers@[c] is None);
                assert(r@.lanes[t][c] == r.channels@[c].lane(t));
            }
        }
        r
    }

    /// Runs lane `task_id`: channels that finished are skipped, a channel whose resumer has
    /// not fired stays blocked, and the others run in order until one of them neither
    /// finishes nor blocks. The lane reports `Finished` when all its channels finished,
    /// `Blocked` with an awaiter over all pending resumers when every channel left is blocked,
    /// and otherwise what the last channel that ran reported. The step is the model
    /// `scan_spec` run over what each channel met, and `step_matches` ties each of those to
    /// an answer: of the channel's resumer to `is_resumed`, of the operators to the call the
    /// model makes on this lane, of the context to the request for an awaiter over copies
    /// of the pending resumers. A stage without channels finishes on any lane.
    pub fn step<B, A, E, C: ExecContext<B, R, A, E>>(&mut self, ctx: &C, task_id: TaskId) -> (r: Result<TaskStatus<A>, StepError<E>>)
        where R: Resumer + Clone,
        requires
            old(self).wf(),
            task_id < old(self)@.dop || old(self)@.num_channels == 0,
        ensures
            final(self).wf(),
            final(self)@.dop == old(self)@.dop,
            final(self)@.num_channels == old(self)@.num_channels,
            final(self)@.channels == old(self)@.channels,
            old(self)@.cancelled ==> r == Ok::<TaskStatus<A>, StepError<E>>(TaskStatus::Cancelled) && final(self)@ == old(self)@,
            !old(self)@.cancelled ==> exists|obs: Seq<ChannelObs<B, R>>|
                #[trigger] step_matches(*ctx, old(self)@, task_id, obs, final(self)@, r),
            final(self)@.cancelled == (old(self)@.cancelled || (r is Err && !(r->Err_0 is Awaiter))
                || r == Ok::<TaskStatus<A>, StepError<E>>(TaskStatus::Cancelled)),
            r == Ok::<TaskStatus<A>, StepError<E>>(TaskStatus::Finished) ==>
                forall|c: int| 0 <= c < final(self)@.num_channels ==> #[trigger] final(self)@.finished[task_id as int][c],
            r is Ok && r->Ok_0 is Blocked ==> {
                &&& forall|c: int| 0 <= c < final(self)@.num_channels ==>
                    #[trigger] final(self)@.finished[task_id as int][c] || final(self)@.blocked[task_id as int][c]
                &&& exists|c: int| 0 <= c < final(self)@.num_channels && #[trigger] final(self)@.blocked[task_id as int][c]
            },
            !old(self)@.cancelled && r is Ok && (forall|c: int| 0 <= c < final(self)@.num_channels ==> #[trigger] final(self)@.finished[task_id as int][c])
                ==> r == Ok::<TaskStatus<A>, StepError<E>>(TaskStatus::Finished),
            forall|c: int| 0 <= c < old(self)@.num_channels && old(self)@.finished[task_id as int][c] ==>
                #[trigger] final(self)@.finished[task_id as int][c],
            forall|t: int| 0 <= t < old(self)@.dop && t != task_id ==> {
                &&& #[trigger] final(self)@.finished[t] == old(self)@.finished[t]
                &&& final(self)@.blocked[t] == old(self)@.blocked[t]
                &&& final(self)@.lanes[t] == old(self)@.lanes[t]
                &&& final(self)@.resumers[t] == old(self)@.resumers[t]
            },
    {
        let t = task_id;
        if self.cancelled {
            return Ok(TaskStatus::Cancelled);
        }
        if self.channels.len() == 0 {
            let r: Result<TaskStatus<A>, StepError<E>> = Ok(TaskStatus::Finished);
            proof {
                let obs = Seq::<ChannelObs<B, R>>::empty();
                assert(scan_spec(self@.channels, scan_start(self@, t as int), obs) == scan_start(self@, t as int));
                assert(step_matches(*ctx, old(self)@, t, obs, self@, r));
            }
            return r;
        }
        proof {
            self.lemma_view_shape();
            self.lemma_view_cells();
        }
        let ghost dop = self.dop as nat;
        let ghost nch = self.channels@.len();
        let ghost chs = old(self)@.channels;
        let ghost start = scan_start(old(self)@, t as int);
        let ghost mut obs: Seq<ChannelObs<B, R>> = Seq::empty();
        let num_channels = self.channels.len();
        let mut all_finished = true;
        let mut all_unfinished_blocked = true;
        let mut blocked_resumers: Vec<R> = Vec::new();
        let mut last = LastOutcome::Continue;
        let mut stop = false;
        let mut failure: Option<StepError<E>> = None;
        let ghost mut witness: int = 0;
        let mut c: usize = 0;
        while c < num_channels && !stop
            invariant
                self.wf(),
                self.dop == dop,
                dop == old(self).dop,
                nch == old(self).channels@.len(),
                old(self).wf(),
                self.channels@.len() == nch,
                num_channels == nch,
                t < dop,
                c <= nch,
                chs == old(self)@.channels,
                chs.len() == nch,
                start == scan_start(old(self)@, t as int),
                forall|j: int| 0 <= j < nch ==> #[trigger] self.channels@[j].info() == chs[j],
                self.cancelled == failure is Some,
                failure is Some ==> stop && !(failure->0 is Awaiter),
                !old(self)@.cancelled,
                failure is None && all_finished ==> forall|j: int| 0 <= j < c ==> #[trigger] self.thread_locals@[t as int].finished@[j],
                failure is None && all_unfinished_blocked ==> forall|j: int| 0 <= j < c ==>
                    #[trigger] self.thread_locals@[t as int].finished@[j] || self.thread_locals@[t as int].resumers@[j] is Some,
                failure is None && blocked_resumers@.len() > 0 ==> 0 <= witness < c && self.thread_locals@[t as int].resumers@[witness] is Some,
                stop ==> !all_finished && !all_unfinished_blocked,
                last is Cancelled ==> !all_finished && !all_unfinished_blocked,
                forall|j: int| 0 <= j < nch && old(self).thread_locals@[t as int].finished@[j] ==>
                    #[trigger] self.thread_locals@[t as int].finished@[j],
                forall|u: int| 0 <= u < dop && u != t ==> #[trigger] self.thread_locals@[u] == old(self).thread_locals@[u],
                forall|j: int, u: int| 0 <= j < nch && 0 <= u < dop && u != t ==>
                    #[trigger] self.channels@[j].lane(u) == old(self).channels@[j].lane(u),
                obs.len() == c,
                ({
                    let s = scan_spec(chs, start, obs);
                    &&& s.stop == stop
                    &&& s.all_finished == all_finished
                    &&& s.all_blocked == all_unfinished_blocked
                    &&& s.pending.len() == blocked_resumers@.len()
                    &&& s.last == last
                    &&& (s.failure is None <==> failure is None)
                    &&& (failure is Some && failure->0 is Operator ==> s.failure == Some(StepFailure::Operator))
                    &&& (failure is Some && failure->0 is Protocol ==> s.failure == Some(StepFailure::Protocol(failure->0->Protocol_0)))
                    &&& s.finished == self.thread_locals@[t as int].finished@
                    &&& s.resumers == self.thread_locals@[t as int].resumers@
                    &&& s.lanes.len() == nch
                    &&& forall|j: int| 0 <= j < nch ==> #[trigger] s.lanes[j] == self.channels@[j].lane(t as int)
                    &&& forall|i: int| 0 <= i < blocked_resumers@.len() ==> cloned(s.pending[i], #[trigger] blocked_resumers@[i])
                    &&& failure is Some && failure->0 is Operator ==> {
                        let ch = chs[c - 1];
                        let pending = run_spec(scan_spec(chs, start, obs.drop_last()).lanes[c - 1], obs[c - 1].outs, ch.drain_ids, ch.pipes.len()).1;
                        ctx.answers(operator_call(ch, pending->Call_0), t, Err(failure->0->Operator_0))
                    }
                }),
                forall|j: int| 0 <= j < c ==>
                    channel_answered(*ctx, chs[j], #[trigger] scan_spec(chs, start, obs.take(j)), j, obs[j], t),
            decreases nch - c,
        {
            let ghost s_before = scan_spec(chs, start, obs);
            let ghost mut ob = ChannelObs::<B, R> { resumed: true, outs: Seq::empty() };
            let mut run = !self.thread_locals[t].finished[c];
            let mut fired = true;
            if run {
                let mut pending: Option<R> = None;
                match &self.thread_locals[t].resumers[c] {
                    Some(resumer) => {
                        fired = resumer.is_resumed();
                        if !fired {
                            pending = Some(resumer.clone());
                        }
                    },
                    None => {},
                }
                match pending {
                    Some(resumer) => {
                        blocked_resumers.push(resumer);
                        all_finished = false;
                        run = false;
                        proof {
                            witness = c as int;
                            ob = ChannelObs { resumed: false, outs: Seq::empty() };
                            assert(channel_answered(*ctx, chs[c as int], s_before, c as int, ob, t));
                        }
                    },
                    None => {
                        let ghost before_clear = self.thread_locals@;
                        self.thread_locals[t].resumers.set(c, None);
                        assert forall|u: int| 0 <= u < dop && u != t implies
                            #[trigger] self.thread_locals@[u] == old(self).thread_locals@[u] by {
                            assert(self.thread_locals@[u] == before_clear[u]);
                        }
                        assert(self.thread_locals@[t as int].finished@ == before_clear[t as int].finished@);
                    },
                }
            }
            if run {
                assert(self.channels@[c as int].wf(dop));
                let ghost channels_before = self.channels@;
                let ghost locals_before = self.thread_locals@;
                let (stepped, Ghost(channel_outs)) = self.channels[c].step(ctx, t, &mut self.cancelled);
                proof {
                    ob = ChannelObs { resumed: fired, outs: channel_outs };
                    assert(channels_before[c as int].info() == chs[c as int]);
                    assert(channels_before[c as int].lane(t as int) == s_before.lanes[c as int]);
                    assert(channel_answered(*ctx, chs[c as int], s_before, c as int, ob, t));
                }
                if stepped.is_err() {
                    self.cancelled = true;
                }
                assert forall|j: int| 0 <= j < nch implies #[trigger] self.channels@[j].wf(dop) by {
                    if j != c {
                        assert(self.channels@[j] == channels_before[j]);
                    }
                }
                assert(channels_before[c as int].info() == chs[c as int]);
                assert(self.channels@[c as int].pipes@ == channels_before[c as int].pipes@);
                assert(self.channels@[c as int].drain_ids@ == channels_before[c as int].drain_ids@);
                assert(self.channels@[c as int].info() == channels_before[c as int].info());
                assert forall|j: int| 0 <= j < nch implies #[trigger] self.channels@[j].info() == chs[j] by {
                    if j != c {
                        assert(self.channels@[j] == channels_before[j]);
                    }
                }
                assert(channels_before[c as int].lane(t as int) == s_before.lanes[c as int]);
                assert(run_spec(s_before.lanes[c as int], channel_outs, chs[c as int].drain_ids, chs[c as int].pipes.len()).0
                    == self.channels@[c as int].lane(t as int));
                assert forall|j: int, u: int| 0 <= j < nch && 0 <= u < dop && u != t implies
                    #[trigger] self.channels@[j].lane(u) == old(self).channels@[j].lane(u) by {
                    if j != c {
                        assert(self.channels@[j] == channels_before[j]);
                    } else {
                        assert(channels_before[j].lane(u) == old(self).channels@[j].lane(u));
                    }
                }
                match stepped {
                    Err(error) => {
                        failure = Some(error);
                        stop = true;
                        all_finished = false;
                        all_unfinished_blocked = false;
                    },
                    Ok(out) => {
                        match out {
                            OpOutput::Finished(_) => {
                                self.thread_locals[t].finished.set(c, true);
                                all_unfinished_blocked = false;
                                last = LastOutcome::Continue;
                            },
                            OpOutput::Blocked(resumer) => {
                                blocked_resumers.push(resumer.clone());
                                self.thread_locals[t].resumers.set(c, Some(resumer));
                                all_finished = false;
                                last = LastOutcome::Continue;
                                proof {
                                    witness = c as int;
                                }
                            },
                            OpOutput::PipeYield => {
                                all_finished = false;
                                all_unfinished_blocked = false;
                                last = LastOutcome::Yield;
                                stop = true;
                            },
                            OpOutput::Cancelled => {
                                all_finished = false;
                                all_unfinished_blocked = false;
                                last = LastOutcome::Cancelled;
                                stop = true;
                            },
                            _ => {
                                all_finished = false;
                                all_unfinished_blocked = false;
                                last = LastOutcome::Continue;
                                stop = true;
                            },
                        }
                    },
                }
                assert forall|u: int| 0 <= u < dop && u != t implies
                    #[trigger] self.thread_locals@[u] == old(self).thread_locals@[u] by {
                    assert(self.thread_locals@[u] == locals_before[u]);
                }
            }
            let ghost obs_before = obs;
            proof {
                obs = obs.push(ob);
                assert(obs.drop_last() == obs_before);
                if !run && s_before.finished[c as int] {
                    assert(channel_answered(*ctx, chs[c as int], s_before, c as int, ob, t));
                }
                assert forall|j: int| 0 <= j < obs.len() implies
                    channel_answered(*ctx, chs[j], #[trigger] scan_spec(chs, start, obs.take(j)), j, obs[j], t) by {
                    if j < obs_before.len() {
                        assert(obs.take(j) == obs_before.take(j));
                        assert(obs[j] == obs_before[j]);
                    } else {
                        assert(obs.take(j) == obs_before);
                    }
                }
                let s = scan_spec(chs, start, obs);
                assert(s == scan_channel(chs[c as int], s_before, c as int, ob));
                assert forall|j: int| 0 <= j < nch implies #[trigger] s.lanes[j] == self.channels@[j].lane(t as int) by {
                    if j != c {
                        assert(s.lanes[j] == s_before.lanes[j]);
                    } else if run {
                        assert(s.lanes[j] == run_spec(s_before.lanes[j], ob.outs, chs[j].drain_ids, chs[j].pipes.len()).0);
                    } else {
                        assert(s.lanes[j] == s_before.lanes[j]);
                    }
                }
            }
            c = c + 1;
        }
        proof {
            self.lemma_view_shape();
            self.lemma_view_cells();
            old(self).lemma_view_cells();
            let s = scan_spec(chs, start, obs);
            assert(self@.lanes[t as int] =~= s.lanes);
            assert forall|u: int| 0 <= u < dop && u != t implies #[trigger] self@.lanes[u] == old(self)@.lanes[u] by {
                assert(self@.lanes[u] =~= old(self)@.lanes[u]);
            }
            assert(self@.channels =~= old(self)@.channels);
        }
        let r: Result<TaskStatus<A>, StepError<E>> = if let Some(error) = failure {
            Err(error)
        } else if all_finished {
            Ok(TaskStatus::Finished)
        } else if all_unfinished_blocked && blocked_resumers.len() > 0 {
            proof {
                assert(self@.blocked[t as int][witness]);
                assert forall|k: int| 0 <= k < self@.num_channels implies
                    #[trigger] self@.finished[t as int][k] || self@.blocked[t as int][k] by {
                    assert(self.thread_locals@[t as int].finished@[k] || self.thread_locals@[t as int].resumers@[k] is Some);
                }
            }
            match ctx.make_awaiter(blocked_resumers) {
                Ok(awaiter) => Ok(TaskStatus::Blocked(awaiter)),
                Err(error) => Err(StepError::Awaiter(error)),
            }
        } else {
            match last {
                LastOutcome::Yield => Ok(TaskStatus::Yield),
                LastOutcome::Cancelled => {
                    self.cancelled = true;
                    Ok(TaskStatus::Cancelled)
                },
                LastOutcome::Continue => Ok(TaskStatus::Continue),
            }
        };
        proof {
            assert(step_matches(*ctx, old(self)@, t, obs, self@, r));
            lemma_scan_unfinished(chs, start, obs);
            if r is Ok && (forall|k: int| 0 <= k < self@.num_channels ==> #[trigger] self@.finished[t as int][k]) {
                let s = scan_spec(chs, start, obs);
                if !s.all_finished {
                    let j = choose|j: int| 0 <= j < obs.len() && !(#[trigger] s.finished[j]);
                    assert(self@.finished[t as int][j]);
                }
            }
        }
        r
    }

    pub fn dop(&self) -> (r: usize)
        ensures
            r == self@.dop,
    {
        self.dop
    }

    pub fn num_channels(&self) -> (r: usize)
        ensures
            r == self@.num_channels,
    {
        self.channels.len()
    }
}

} // verus!

verus! {

/// The mathematical model of one compiled stage.
pub struct PipelinexeView {
    pub name: Seq<char>,
    pub channels: Seq<ChannelView>,
    pub implicit_sources: Seq<usize>,
    pub sink: usize,
    pub dop: nat,
}

/// One stage of a compiled pipeline: channels that can run together, the implicit
/// sources that feed some of them, and the sink they all feed.
pub struct Pipelinexe {
    name: String,
    channels: Vec<PipelineChannel>,
    implicit_sources_keepalive: Vec<usize>,
    sink: usize,
    dop: usize,
}

impl View for Pipelinexe {
    type V = PipelinexeView;

    closed spec fn view(&self) -> PipelinexeView {
        PipelinexeView {
            name: self.name@,
            channels: channel_views(self.channels@),
            implicit_sources: self.implicit_sources_keepalive@,
            sink: self.sink,
            dop: self.dop as nat,
        }
    }
}

impl Pipelinexe {
    pub(crate) fn new(
        name: String,
        channels: Vec<PipelineChannel>,
        implicit_sources_keepalive: Vec<usize>,
        sink: usize,
        dop: usize,
    ) -> (r: Self)
        ensures
            r@ == (PipelinexeView {
                name: name@,
                channels: channel_views(channels@),
                implicit_sources: implicit_sources_keepalive@,
                sink,
                dop: dop as nat,
            }),
    {
        Pipelinexe { name, channels, implicit_sources_keepalive, sink, dop }
    }

    pub fn name(&self) -> (r: &str)
        ensures
            r@ == self@.name,
    {
        self.name.as_str()
    }

    pub fn dop(&self) -> (r: usize)
        ensures
            r == self@.dop,
    {
        self.dop
    }

    pub fn channels(&self) -> (r: &[PipelineChannel])
        ensures
            channel_views(r@) == self@.channels,
    {
        self.channels.as_slice()
    }

    pub fn num_implicit_sources(&self) -> (r: usize)
        ensures
            r == self@.implicit_sources.len(),
    {
        self.implicit_sources_keepalive.len()
    }

    /// The identities of the implicit sources that feed channels of this stage.
    pub fn implicit_sources(&self) -> (r: &[usize])
        ensures
            r@ == self@.implicit_sources,
    {
        self.implicit_sources_keepalive.as_slice()
    }

    pub fn sink(&self) -> (r: usize)
        ensures
            r == self@.sink,
    {
        self.sink
    }

    /// A fresh runtime for this stage.
    pub fn pipe_exec<R>(&self) -> (r: PipeExec<R>)
        ensures
            r.wf(),
            r@.dop == self@.dop,
            r@.num_channels == self@.channels.len(),
            !r@.cancelled,
            r@.channels == self@.channels.map_values(|c: ChannelView| runtime_channel(c, self@.sink)),
            forall|t: int, c: int| 0 <= t < self@.dop && 0 <= c < self@.channels.len() ==> {
                &&& !r@.finished[t][c]
                &&& !r@.blocked[t][c]
                &&& r@.resumers[t][c] is None
                &&& r@.lanes[t][c] == LaneView::initial()
            },
    {
        PipeExec::new(self.channels.as_slice(), self.sink, self.dop)
    }
}

impl Clone for Pipelinexe {
    fn clone(&self) -> (r: Self)
        ensures
            r@ == self@,
    {
        let mut channels: Vec<PipelineChannel> = Vec::new();
        let mut i: usize = 0;
        while i < self.channels.len()
            invariant
                i <= self.channels.len(),
                channels.len() == i,
                forall|j: int| 0 <= j < i ==> #[trigger] channels@[j]@ == self.channels@[j]@,
            decreases self.channels.len() - i,
        {
            channels.push(self.channels[i].clone());
            i = i + 1;
        }
        let r = Pipelinexe {
            name: self.name.clone(),
            channels,
            implicit_sources_keepalive: self.implicit_sources_keepalive.clone(),
            sink: self.sink,
            dop: self.dop,
        };
        assert(channel_views(r.channels@) =~= channel_views(self.channels@));
        r
    }
}

/// The mathematical model of a compiled pipeline.
pub struct PipelineExecView {
    pub name: Seq<char>,
    pub sink: usize,
    pub pipelinexes: Seq<PipelinexeView>,
    pub dop: nat,
}

/// A compiled pipeline: its stages in the order in which they run, and its sink.
pub struct PipelineExec {
    name: String,
    sink: usize,
    pipelinexes: Vec<Pipelinexe>,
    dop: usize,
}

impl View for PipelineExec {
    type V = PipelineExecView;

    closed spec fn view(&self) -> PipelineExecView {
        PipelineExecView {
            name: self.name@,
            sink: self.sink,
            pipelinexes: self.pipelinexes@.map_values(|p: Pipelinexe| p@),
            dop: self.dop as nat,
        }
    }
}

impl PipelineExec {
    pub(crate) fn new(name: String, sink: usize, pipelinexes: Vec<Pipelinexe>, dop: usize) -> (r: Self)
        ensures
            r@ == (PipelineExecView {
                name: name@,
                sink,
                pipelinexes: pipelinexes@.map_values(|p: Pipelinexe| p@),
                dop: dop as nat,
            }),
    {
        PipelineExec { name, sink, pipelinexes, dop }
    }

    pub fn name(&self) -> (r: &str)
        ensures
            r@ == self@.name,
    {
        self.name.as_str()
    }

    pub fn dop(&self) -> (r: usize)
        ensures
            r == self@.dop,
    {
        self.dop
    }

    pub fn sink(&self) -> (r: usize)
        ensures
            r == self@.sink,
    {
        self.sink
    }

    pub fn pipelinexes(&self) -> (r: &[Pipelinexe])
        ensures
            r@.map_values(|p: Pipelinexe| p@) == self@.pipelinexes,
    {
        self.pipelinexes.as_slice()
    }
}

} // verus!

verus! {

/// A lane with one runnable channel reports what that channel's run ends with: `Finished`
/// when the channel finished, `Blocked` on the channel's resumer when it blocked, `Yield`
/// when a pipe yielded, `Cancelled` when an operator cancelled, `Continue` on any other
/// output, and a failure when an operator failed or broke the protocol.
pub proof fn law_single_channel_step<B, R>(v: ExecView<R>, t: int, ob: ChannelObs<B, R>)
    requires
        v.num_channels == 1,
        v.channels.len() == 1,
        v.finished[t].len() == 1,
        v.resumers[t].len() == 1,
        v.lanes[t].len() == 1,
        !v.finished[t][0],
        v.resumers[t][0] is None,
    ensures
        ({
            let ch = v.channels[0];
            let (lane, step) = run_spec(v.lanes[t][0], ob.outs, ch.drain_ids, ch.pipes.len());
            let s = scan_spec(v.channels, scan_start(v, t), seq![ob]);
            &&& s.lanes[0] == lane
            &&& scan_outcome(s) == match step {
                ChannelStep::Done(OpOutput::Finished(_)) => LaneOutcome::<R>::Finished,
                ChannelStep::Done(OpOutput::Blocked(r)) => LaneOutcome::Blocked(seq![r]),
                ChannelStep::Done(OpOutput::PipeYield) => LaneOutcome::Yield,
                ChannelStep::Done(OpOutput::Cancelled) => LaneOutcome::Cancelled,
                ChannelStep::Done(_) => LaneOutcome::Continue,
                ChannelStep::Violation(p) => LaneOutcome::Failed(StepFailure::Protocol(p)),
                ChannelStep::Call(_) => LaneOutcome::Failed(StepFailure::Operator),
            }
        }),
{
    let obs = seq![ob];
    assert(obs.drop_last() == Seq::<ChannelObs<B, R>>::empty());
    assert(obs.last() == ob);
    let start = scan_start(v, t);
    let s = scan_spec(v.channels, start, obs);
    assert(scan_spec(v.channels, start, Seq::<ChannelObs<B, R>>::empty()) == start);
    assert(s == scan_channel(v.channels[0], start, 0, ob));
    let (lane, step) = run_spec(v.lanes[t][0], ob.outs, v.channels[0].drain_ids, v.channels[0].pipes.len());
    match step {
        ChannelStep::Done(OpOutput::Blocked(r)) => {
            assert(Seq::<R>::empty().push(r) == seq![r]);
        },
        _ => {},
    }
}

} // verus!

verus! {

/// A channel whose run hands back anything but `Finished` or `Blocked` ends the runtime
/// step: the step stops there, every later channel is left alone, and the lane reports
/// `Yield` for a pipe's yield, `Cancelled` for a cancellation, and `Continue` otherwise.
pub proof fn law_step_stops_at_unfinished_output<B, R>(
    ch: RuntimeChannel,
    s: LaneScan<R>,
    c: int,
    ob: ChannelObs<B, R>,
    later: RuntimeChannel,
    c2: int,
    ob2: ChannelObs<B, R>,
)
    requires
        0 <= c < s.lanes.len(),
        c < s.finished.len(),
        c < s.resumers.len(),
        !s.stop,
        s.failure is None,
        !s.finished[c],
        s.resumers[c] is Some ==> ob.resumed,
        run_spec(s.lanes[c], ob.outs, ch.drain_ids, ch.pipes.len()).1 matches ChannelStep::Done(o)
            && !(o is Finished) && !(o is Blocked),
    ensures
        ({
            let after = scan_channel(ch, s, c, ob);
            let o = run_spec(s.lanes[c], ob.outs, ch.drain_ids, ch.pipes.len()).1->Done_0;
            &&& after.stop
            &&& scan_channel(later, after, c2, ob2) == after
            &&& o is PipeYield ==> scan_outcome(after) == LaneOutcome::<R>::Yield
            &&& o is Cancelled ==> scan_outcome(after) == LaneOutcome::<R>::Cancelled
            &&& !(o is PipeYield) && !(o is Cancelled) ==> scan_outcome(after) == LaneOutcome::<R>::Continue
            &&& after.lanes[c] == run_spec(s.lanes[c], ob.outs, ch.drain_ids, ch.pipes.len()).0
        }),
{
}

/// A channel whose run finishes or blocks lets the step go on to the next channel.
pub proof fn law_step_goes_on_after_finish_or_block<B, R>(ch: RuntimeChannel, s: LaneScan<R>, c: int, ob: ChannelObs<B, R>)
    requires
        0 <= c < s.lanes.len(),
        c < s.finished.len(),
        c < s.resumers.len(),
        !s.stop,
        !s.finished[c],
        s.resumers[c] is Some ==> ob.resumed,
        run_spec(s.lanes[c], ob.outs, ch.drain_ids, ch.pipes.len()).1 matches ChannelStep::Done(o)
            && (o is Finished || o is Blocked),
    ensures
        !scan_channel(ch, s, c, ob).stop,
        run_spec(s.lanes[c], ob.outs, ch.drain_ids, ch.pipes.len()).1->Done_0 is Finished ==> scan_channel(ch, s, c, ob).finished[c],
{
}

} // verus!
