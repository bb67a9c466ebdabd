use vstd::prelude::*;

use crate::schedule::error::ScheduleError;
use crate::schedule::resumer::{add_callback_spec, resume_spec, ResumerView};

verus! {

/// The mathematical model of an awaiter: how many of its resumers must fire before it is
/// ready, its resumers, and how many fired.
pub struct AwaiterView<R> {
    pub num_readies: nat,
    pub resumers: Seq<R>,
    pub ready_count: nat,
}

impl<R> AwaiterView<R> {
    pub open spec fn is_ready(self) -> bool {
        self.ready_count >= self.num_readies
    }

    pub open spec fn notified(self) -> AwaiterView<R> {
        AwaiterView { ready_count: self.ready_count + 1, ..self }
    }
}

/// Why an awaiter named `awaiter` cannot wait for `num_readies` of `resumers`, if it cannot.
pub open spec fn awaiter_check<R>(awaiter: &'static str, num_readies: usize, resumers: Seq<R>) -> Option<ScheduleError> {
    if resumers.len() == 0 {
        Some(ScheduleError::EmptyResumers { awaiter })
    } else if num_readies == 0 {
        Some(ScheduleError::InvalidReadyCount { awaiter, num_readies })
    } else {
        None
    }
}

/// The counting that every awaiter does: it is ready once `num_readies` of its resumers
/// fired.
struct ReadyCounter<R> {
    num_readies: usize,
    resumers: Vec<R>,
    ready_count: usize,
}

impl<R> ReadyCounter<R> {
    spec fn view(&self) -> AwaiterView<R> {
        AwaiterView {
            num_readies: self.num_readies as nat,
            resumers: self.resumers@,
            ready_count: self.ready_count as nat,
        }
    }

    fn new(awaiter: &'static str, num_readies: usize, resumers: Vec<R>) -> (r: Result<Self, ScheduleError>)
        ensures
            awaiter_check(awaiter, num_readies, resumers@) matches Some(e) ==> r == Err::<Self, ScheduleError>(e),
            awaiter_check(awaiter, num_readies, resumers@) is None ==> r is Ok && r->Ok_0.view() == (AwaiterView {
                num_readies: num_readies as nat,
                resumers: resumers@,
                ready_count: 0,
            }),
    {
        if resumers.len() == 0 {
            return Err(ScheduleError::EmptyResumers { awaiter });
        }
        if num_readies == 0 {
            return Err(ScheduleError::InvalidReadyCount { awaiter, num_readies });
        }
        Ok(ReadyCounter { num_readies, resumers, ready_count: 0 })
    }

    fn notify_ready(&mut self) -> (ready: bool)
        requires
            old(self).ready_count < usize::MAX,
        ensures
            final(self).view() == old(self).view().notified(),
            ready == final(self).view().is_ready(),
    {
        self.ready_count = self.ready_count + 1;
        self.ready_count >= self.num_readies
    }
}

/// The awaiter of the thread-pool scheduler; it waits on callback resumers.
pub struct FutureAwaiter<R> {
    counter: ReadyCounter<R>,
}

/// The awaiter of the sequential scheduler; it waits on single-thread resumers.
pub struct SingleThreadAwaiter<R> {
    counter: ReadyCounter<R>,
}

/// The awaiter of the naive parallel scheduler; it waits on callback resumers.
pub struct ConditionalAwaiter<R> {
    counter: ReadyCounter<R>,
}

/// The awaiter of the parallel coroutine-style scheduler; it waits on coroutine resumers.
pub struct CoroAwaiter<R> {
    counter: ReadyCounter<R>,
}

impl<R> View for FutureAwaiter<R> {
    type V = AwaiterView<R>;

    closed spec fn view(&self) -> AwaiterView<R> {
        self.counter.view()
    }
}

impl<R> View for SingleThreadAwaiter<R> {
    type V = AwaiterView<R>;

    closed spec fn view(&self) -> AwaiterView<R> {
        self.counter.view()
    }
}

impl<R> View for ConditionalAwaiter<R> {
    type V = AwaiterView<R>;

    closed spec fn view(&self) -> AwaiterView<R> {
        self.counter.view()
    }
}

impl<R> View for CoroAwaiter<R> {
    type V = AwaiterView<R>;

    closed spec fn view(&self) -> AwaiterView<R> {
        self.counter.view()
    }
}

impl<R> FutureAwaiter<R> {
    /// An awaiter that is ready once `num_readies` of `resumers` fired; there must be at
    /// least one resumer and one readiness to wait for.
    pub fn new(num_readies: usize, resumers: Vec<R>) -> (r: Result<Self, ScheduleError>)
        ensures
            awaiter_check("FutureAwaiter", num_readies, resumers@) matches Some(e) ==> r == Err::<Self, ScheduleError>(e),
            awaiter_check("FutureAwaiter", num_readies, resumers@) is None ==> r is Ok && r->Ok_0@ == (AwaiterView {
                num_readies: num_readies as nat,
                resumers: resumers@,
                ready_count: 0,
            }),
    {
        match ReadyCounter::new("FutureAwaiter", num_readies, resumers) {
            Ok(counter) => Ok(FutureAwaiter { counter }),
            Err(e) => Err(e),
        }
    }

    /// The error for a resumer that this awaiter cannot register with.
    pub fn unexpected_resumer() -> (e: ScheduleError)
        ensures
            e == (ScheduleError::UnexpectedResumerType { awaiter: "FutureAwaiter", expected: "CallbackResumer" }),
    {
        ScheduleError::UnexpectedResumerType { awaiter: "FutureAwaiter", expected: "CallbackResumer" }
    }

    pub fn is_ready(&self) -> (r: bool)
        ensures
            r == self@.is_ready(),
    {
        self.counter.ready_count >= self.counter.num_readies
    }

    pub fn resumers(&self) -> (r: &[R])
        ensures
            r@ == self@.resumers,
    {
        self.counter.resumers.as_slice()
    }

    /// Counts one fired resumer; says whether the awaiter is now ready.
    pub fn notify_ready(&mut self) -> (ready: bool)
        requires
            old(self)@.ready_count < usize::MAX,
        ensures
            final(self)@ == old(self)@.notified(),
            ready == final(self)@.is_ready(),
    {
        self.counter.notify_ready()
    }
}

impl<R> SingleThreadAwaiter<R> {
    /// An awaiter that is ready once `num_readies` of `resumers` fired; there must be at
    /// least one resumer and one readiness to wait for.
    pub fn new(num_readies: usize, resumers: Vec<R>) -> (r: Result<Self, ScheduleError>)
        ensures
            awaiter_check("SingleThreadAwaiter", num_readies, resumers@) matches Some(e) ==> r == Err::<Self, ScheduleError>(e),
            awaiter_check("SingleThreadAwaiter", num_readies, resumers@) is None ==> r is Ok && r->Ok_0@ == (AwaiterView {
                num_readies: num_readies as nat,
                resumers: resumers@,
                ready_count: 0,
            }),
    {
        match ReadyCounter::new("SingleThreadAwaiter", num_readies, resumers) {
            Ok(counter) => Ok(SingleThreadAwaiter { counter }),
            Err(e) => Err(e),
        }
    }

    /// The error for a resumer that this awaiter cannot register with.
    pub fn unexpected_resumer() -> (e: ScheduleError)
        ensures
            e == (ScheduleError::UnexpectedResumerType { awaiter: "SingleThreadAwaiter", expected: "SingleThreadResumer" }),
    {
        ScheduleError::UnexpectedResumerType { awaiter: "SingleThreadAwaiter", expected: "SingleThreadResumer" }
    }

    pub fn is_ready(&self) -> (r: bool)
        ensures
            r == self@.is_ready(),
    {
        self.counter.ready_count >= self.counter.num_readies
    }

    pub fn resumers(&self) -> (r: &[R])
        ensures
            r@ == self@.resumers,
    {
        self.counter.resumers.as_slice()
    }

    /// Counts one fired resumer; says whether the awaiter is now ready.
    pub fn notify_ready(&mut self) -> (ready: bool)
        requires
            old(self)@.ready_count < usize::MAX,
        ensures
            final(self)@ == old(self)@.notified(),
            ready == final(self)@.is_ready(),
    {
        self.counter.notify_ready()
    }
}

impl<R> ConditionalAwaiter<R> {
    /// An awaiter that is ready once `num_readies` of `resumers` fired; there must be at
    /// least one resumer and one readiness to wait for.
    pub fn new(num_readies: usize, resumers: Vec<R>) -> (r: Result<Self, ScheduleError>)
        ensures
            awaiter_check("ConditionalAwaiter", num_readies, resumers@) matches Some(e) ==> r == Err::<Self, ScheduleError>(e),
            awaiter_check("ConditionalAwaiter", num_readies, resumers@) is None ==> r is Ok && r->Ok_0@ == (AwaiterView {
                num_readies: num_readies as nat,
                resumers: resumers@,
                ready_count: 0,
            }),
    {
        match ReadyCounter::new("ConditionalAwaiter", num_readies, resumers) {
            Ok(counter) => Ok(ConditionalAwaiter { counter }),
            Err(e) => Err(e),
        }
    }

    /// The error for a resumer that this awaiter cannot register with.
    pub fn unexpected_resumer() -> (e: ScheduleError)
        ensures
            e == (ScheduleError::UnexpectedResumerType { awaiter: "ConditionalAwaiter", expected: "CallbackResumer" }),
    {
        ScheduleError::UnexpectedResumerType { awaiter: "ConditionalAwaiter", expected: "CallbackResumer" }
    }

    pub fn is_ready(&self) -> (r: bool)
        ensures
            r == self@.is_ready(),
    {
        self.counter.ready_count >= self.counter.num_readies
    }

    pub fn resumers(&self) -> (r: &[R])
        ensures
            r@ == self@.resumers,
    {
        self.counter.resumers.as_slice()
    }

    /// Counts one fired resumer; says whether the awaiter is now ready.
    pub fn notify_ready(&mut self) -> (ready: bool)
        requires
            old(self)@.ready_count < usize::MAX,
        ensures
            final(self)@ == old(self)@.notified(),
            ready == final(self)@.is_ready(),
    {
        self.counter.notify_ready()
    }
}

impl<R> CoroAwaiter<R> {
    /// An awaiter that is ready once `num_readies` of `resumers` fired; there must be at
    /// least one resumer and one readiness to wait for.
    pub fn new(num_readies: usize, resumers: Vec<R>) -> (r: Result<Self, ScheduleError>)
        ensures
            awaiter_check("CoroAwaiter", num_readies, resumers@) matches Some(e) ==> r == Err::<Self, ScheduleError>(e),
            awaiter_check("CoroAwaiter", num_readies, resumers@) is None ==> r is Ok && r->Ok_0@ == (AwaiterView {
                num_readies: num_readies as nat,
                resumers: resumers@,
                ready_count: 0,
            }),
    {
        match ReadyCounter::new("CoroAwaiter", num_readies, resumers) {
            Ok(counter) => Ok(CoroAwaiter { counter }),
            Err(e) => Err(e),
        }
    }

    /// The error for a resumer that this awaiter cannot register with.
    pub fn unexpected_resumer() -> (e: ScheduleError)
        ensures
            e == (ScheduleError::UnexpectedResumerType { awaiter: "CoroAwaiter", expected: "CoroResumer" }),
    {
        ScheduleError::UnexpectedResumerType { awaiter: "CoroAwaiter", expected: "CoroResumer" }
    }

    pub fn is_ready(&self) -> (r: bool)
        ensures
            r == self@.is_ready(),
    {
        self.counter.ready_count >= self.counter.num_readies
    }

    pub fn resumers(&self) -> (r: &[R])
        ensures
            r@ == self@.resumers,
    {
        self.counter.resumers.as_slice()
    }

    /// Counts one fired resumer; says whether the awaiter is now ready.
    pub fn notify_ready(&mut self) -> (ready: bool)
        requires
            old(self)@.ready_count < usize::MAX,
        ensures
            final(self)@ == old(self)@.notified(),
            ready == final(self)@.is_ready(),
    {
        self.counter.notify_ready()
    }
}

} // verus!

verus! {

/// The view after `m` resumers fired.
pub open spec fn notified_times<R>(v: AwaiterView<R>, m: nat) -> AwaiterView<R>
    decreases m,
{
    if m == 0 {
        v
    } else {
        notified_times(v, (m - 1) as nat).notified()
    }
}

/// A fresh awaiter is ready exactly when at least `num_readies` of its resumers fired: one
/// for an awaiter that waits on any resumer, all for one that waits on all of them.
pub proof fn law_ready_after_enough_resumers<R>(num_readies: nat, resumers: Seq<R>, m: nat)
    ensures
        notified_times(AwaiterView { num_readies, resumers, ready_count: 0 }, m).ready_count == m,
        notified_times(AwaiterView { num_readies, resumers, ready_count: 0 }, m).num_readies == num_readies,
        notified_times(AwaiterView { num_readies, resumers, ready_count: 0 }, m).resumers == resumers,
        notified_times(AwaiterView { num_readies, resumers, ready_count: 0 }, m).is_ready() <==> m >= num_readies,
    decreases m,
{
    let fresh = AwaiterView { num_readies, resumers, ready_count: 0 };
    if m > 0 {
        law_ready_after_enough_resumers(num_readies, resumers, (m - 1) as nat);
        assert(notified_times(fresh, m) == notified_times(fresh, (m - 1) as nat).notified());
    } else {
        assert(notified_times(fresh, m) == fresh);
    }
}

} // verus!

verus! {

/// How many callbacks resuming the first `k` resumers hands out.
pub open spec fn handed_out<C>(resumers: Seq<ResumerView<C>>, k: nat) -> nat
    decreases k,
{
    if k == 0 {
        0
    } else {
        handed_out(resumers, (k - 1) as nat) + resume_spec(resumers[k - 1]).1.len()
    }
}

/// An awaiter registers one callback on each of its resumers, and counts each callback run:
/// once `k` of the resumers fired, the callback ran `k` times, and the awaiter is ready
/// exactly when `k` reaches `num_readies`.
pub proof fn law_ready_once_enough_resumers_fire<R, C>(
    num_readies: nat,
    resumers: Seq<R>,
    registered: Seq<ResumerView<C>>,
    callback: C,
    k: nat,
)
    requires
        k <= registered.len(),
        forall|j: int| 0 <= j < registered.len() ==>
            (#[trigger] registered[j]) == add_callback_spec(ResumerView { resumed: false, pending: Seq::empty() }, callback).0,
    ensures
        handed_out(registered, k) == k,
        notified_times(AwaiterView { num_readies, resumers, ready_count: 0 }, handed_out(registered, k)).is_ready()
            <==> k >= num_readies,
    decreases k,
{
    if k > 0 {
        law_ready_once_enough_resumers_fire(num_readies, resumers, registered, callback, (k - 1) as nat);
        assert(registered[k - 1].pending == seq![callback]);
    }
    law_ready_after_enough_resumers(num_readies, resumers, handed_out(registered, k));
}

} // verus!
