use vstd::prelude::*;

verus! {

/// The mathematical model of a callback resumer: whether it fired, and the callbacks
/// that wait for it to fire.
pub struct ResumerView<C> {
    pub resumed: bool,
    pub pending: Seq<C>,
}

/// What `add_callback` does: before the resumer fires the callback waits; after, it is
/// handed back to run at once.
pub open spec fn add_callback_spec<C>(v: ResumerView<C>, callback: C) -> (ResumerView<C>, Option<C>) {
    if v.resumed {
        (v, Some(callback))
    } else {
        (ResumerView { pending: v.pending.push(callback), ..v }, None)
    }
}

/// What `resume` does: the first call fires the resumer and hands out every waiting
/// callback; later calls do nothing.
pub open spec fn resume_spec<C>(v: ResumerView<C>) -> (ResumerView<C>, Seq<C>) {
    if v.resumed {
        (v, Seq::empty())
    } else {
        (ResumerView { resumed: true, pending: Seq::empty() }, v.pending)
    }
}

/// A resumer that fires once and hands the callbacks registered on it to whoever
/// resumes it; a callback registered after it fired is handed back at once.
pub struct CallbackResumer<C> {
    resumed: bool,
    callbacks: Vec<C>,
}

impl<C> View for CallbackResumer<C> {
    type V = ResumerView<C>;

    closed spec fn view(&self) -> ResumerView<C> {
        ResumerView { resumed: self.resumed, pending: self.callbacks@ }
    }
}

impl<C> CallbackResumer<C> {
    pub fn new() -> (r: Self)
        ensures
            r@ == (ResumerView::<C> { resumed: false, pending: Seq::empty() }),
    {
        CallbackResumer { resumed: false, callbacks: Vec::new() }
    }

    /// Registers `callback`; returns it when the resumer already fired, for the caller to
    /// run now.
    pub fn add_callback(&mut self, callback: C) -> (run_now: Option<C>)
        ensures
            (final(self)@, run_now) == add_callback_spec(old(self)@, callback),
    {
        if self.resumed {
            Some(callback)
        } else {
            self.callbacks.push(callback);
            None
        }
    }

    /// Fires the resumer; returns the callbacks to run, none when it already fired.
    pub fn resume(&mut self) -> (to_run: Vec<C>)
        ensures
            (final(self)@, to_run@) == resume_spec(old(self)@),
    {
        if self.resumed {
            return Vec::new();
        }
        self.resumed = true;
        let mut callbacks: Vec<C> = Vec::new();
        std::mem::swap(&mut callbacks, &mut self.callbacks);
        callbacks
    }

    pub fn is_resumed(&self) -> (r: bool)
        ensures
            r == self@.resumed,
    {
        self.resumed
    }
}

impl<C> Default for CallbackResumer<C> {
    fn default() -> (r: Self)
        ensures
            r@ == (ResumerView::<C> { resumed: false, pending: Seq::empty() }),
    {
        Self::new()
    }
}

/// The resumer of the coroutine-style schedulers: a callback resumer under another name.
pub struct CoroResumer<C> {
    inner: CallbackResumer<C>,
}

impl<C> View for CoroResumer<C> {
    type V = ResumerView<C>;

    closed spec fn view(&self) -> ResumerView<C> {
        self.inner@
    }
}

impl<C> CoroResumer<C> {
    pub fn new() -> (r: Self)
        ensures
            r@ == (ResumerView::<C> { resumed: false, pending: Seq::empty() }),
    {
        CoroResumer { inner: CallbackResumer::new() }
    }

    pub fn add_callback(&mut self, callback: C) -> (run_now: Option<C>)
        ensures
            (final(self)@, run_now) == add_callback_spec(old(self)@, callback),
    {
        self.inner.add_callback(callback)
    }

    pub fn resume(&mut self) -> (to_run: Vec<C>)
        ensures
            (final(self)@, to_run@) == resume_spec(old(self)@),
    {
        self.inner.resume()
    }

    pub fn is_resumed(&self) -> (r: bool)
        ensures
            r == self@.resumed,
    {
        self.inner.is_resumed()
    }
}

impl<C> Default for CoroResumer<C> {
    fn default() -> (r: Self)
        ensures
            r@ == (ResumerView::<C> { resumed: false, pending: Seq::empty() }),
    {
        Self::new()
    }
}

/// The resumer of the sequential scheduler: a callback resumer under another name.
pub struct SingleThreadResumer<C> {
    inner: CallbackResumer<C>,
}

impl<C> View for SingleThreadResumer<C> {
    type V = ResumerView<C>;

    closed spec fn view(&self) -> ResumerView<C> {
        self.inner@
    }
}

impl<C> SingleThreadResumer<C> {
    pub fn new() -> (r: Self)
        ensures
            r@ == (ResumerView::<C> { resumed: false, pending: Seq::empty() }),
    {
        SingleThreadResumer { inner: CallbackResumer::new() }
    }

    pub fn add_callback(&mut self, callback: C) -> (run_now: Option<C>)
        ensures
            (final(self)@, run_now) == add_callback_spec(old(self)@, callback),
    {
        self.inner.add_callback(callback)
    }

    pub fn resume(&mut self) -> (to_run: Vec<C>)
        ensures
            (final(self)@, to_run@) == resume_spec(old(self)@),
    {
        self.inner.resume()
    }

    pub fn is_resumed(&self) -> (r: bool)
        ensures
            r == self@.resumed,
    {
        self.inner.is_resumed()
    }
}

impl<C> Default for SingleThreadResumer<C> {
    fn default() -> (r: Self)
        ensures
            r@ == (ResumerView::<C> { resumed: false, pending: Seq::empty() }),
    {
        Self::new()
    }
}

} // verus!

verus! {

/// Resuming twice is resuming once: the second call hands out nothing and changes nothing.
pub proof fn law_resume_is_idempotent<C>(v: ResumerView<C>)
    ensures
        resume_spec(resume_spec(v).0).0 == resume_spec(v).0,
        resume_spec(resume_spec(v).0).1 == Seq::<C>::empty(),
        resume_spec(v).0.resumed,
{
}

/// Every callback runs once: registered before the resumer fires, it is handed out by
/// `resume`, after the callbacks registered before it; registered after, it is handed back
/// at once and never again.
pub proof fn law_callback_runs_once<C>(v: ResumerView<C>, callback: C)
    ensures
        !v.resumed ==> {
            let (added, now) = add_callback_spec(v, callback);
            &&& now is None
            &&& resume_spec(added).1 == v.pending.push(callback)
        },
        v.resumed ==> {
            let (added, now) = add_callback_spec(v, callback);
            &&& now == Some(callback)
            &&& resume_spec(added).1 == Seq::<C>::empty()
        },
{
}

} // verus!
