use vstd::prelude::*;

verus! {

/// What one call of a source, pipe, drain or sink reports to the runtime.
/// `B` is the batch type and `R` the resumer handle of a blocked operator.
pub enum OpOutput<B, R> {
    PipeSinkNeedsMore,
    PipeEven(B),
    SourcePipeHasMore(B),
    Blocked(R),
    PipeYield,
    PipeYieldBack,
    Finished(Option<B>),
    Cancelled,
}

/// The variant of an `OpOutput`, without its payload.
#[derive(Clone, Copy, Debug, PartialEq, Eq, Structural)]
pub enum OpOutputKind {
    PipeSinkNeedsMore,
    PipeEven,
    SourcePipeHasMore,
    Blocked,
    PipeYield,
    PipeYieldBack,
    Finished,
    Cancelled,
}

impl OpOutputKind {
    pub open spec fn spec_label(self) -> Seq<char> {
        match self {
            OpOutputKind::PipeSinkNeedsMore => "PIPE_SINK_NEEDS_MORE"@,
            OpOutputKind::PipeEven => "PIPE_EVEN"@,
            OpOutputKind::SourcePipeHasMore => "SOURCE_PIPE_HAS_MORE"@,
            OpOutputKind::Blocked => "BLOCKED"@,
            OpOutputKind::PipeYield => "PIPE_YIELD"@,
            OpOutputKind::PipeYieldBack => "PIPE_YIELD_BACK"@,
            OpOutputKind::Finished => "FINISHED"@,
            OpOutputKind::Cancelled => "CANCELLED"@,
        }
    }

    pub fn label(&self) -> (r: &'static str)
        ensures
            r@ == self.spec_label(),
    {
        match self {
            OpOutputKind::PipeSinkNeedsMore => "PIPE_SINK_NEEDS_MORE",
            OpOutputKind::PipeEven => "PIPE_EVEN",
            OpOutputKind::SourcePipeHasMore => "SOURCE_PIPE_HAS_MORE",
            OpOutputKind::Blocked => "BLOCKED",
            OpOutputKind::PipeYield => "PIPE_YIELD",
            OpOutputKind::PipeYieldBack => "PIPE_YIELD_BACK",
            OpOutputKind::Finished => "FINISHED",
            OpOutputKind::Cancelled => "CANCELLED",
        }
    }
}

impl<B, R> OpOutput<B, R> {
    pub open spec fn spec_kind(&self) -> OpOutputKind {
        match self {
            OpOutput::PipeSinkNeedsMore => OpOutputKind::PipeSinkNeedsMore,
            OpOutput::PipeEven(_) => OpOutputKind::PipeEven,
            OpOutput::SourcePipeHasMore(_) => OpOutputKind::SourcePipeHasMore,
            OpOutput::Blocked(_) => OpOutputKind::Blocked,
            OpOutput::PipeYield => OpOutputKind::PipeYield,
            OpOutput::PipeYieldBack => OpOutputKind::PipeYieldBack,
            OpOutput::Finished(_) => OpOutputKind::Finished,
            OpOutput::Cancelled => OpOutputKind::Cancelled,
        }
    }

    pub fn kind(&self) -> (r: OpOutputKind)
        ensures
            r == self.spec_kind(),
    {
        match self {
            OpOutput::PipeSinkNeedsMore => OpOutputKind::PipeSinkNeedsMore,
            OpOutput::PipeEven(_) => OpOutputKind::PipeEven,
            OpOutput::SourcePipeHasMore(_) => OpOutputKind::SourcePipeHasMore,
            OpOutput::Blocked(_) => OpOutputKind::Blocked,
            OpOutput::PipeYield => OpOutputKind::PipeYield,
            OpOutput::PipeYieldBack => OpOutputKind::PipeYieldBack,
            OpOutput::Finished(_) => OpOutputKind::Finished,
            OpOutput::Cancelled => OpOutputKind::Cancelled,
        }
    }

    pub fn is_pipe_sink_needs_more(&self) -> (r: bool)
        ensures
            r == (*self is PipeSinkNeedsMore),
    {
        matches!(self, OpOutput::PipeSinkNeedsMore)
    }

    pub fn is_pipe_even(&self) -> (r: bool)
        ensures
            r == (*self is PipeEven),
    {
        matches!(self, OpOutput::PipeEven(_))
    }

    pub fn is_source_pipe_has_more(&self) -> (r: bool)
        ensures
            r == (*self is SourcePipeHasMore),
    {
        matches!(self, OpOutput::SourcePipeHasMore(_))
    }

    pub fn is_blocked(&self) -> (r: bool)
        ensures
            r == (*self is Blocked),
    {
        matches!(self, OpOutput::Blocked(_))
    }

    pub fn is_pipe_yield(&self) -> (r: bool)
        ensures
            r == (*self is PipeYield),
    {
        matches!(self, OpOutput::PipeYield)
    }

    pub fn is_pipe_yield_back(&self) -> (r: bool)
        ensures
            r == (*self is PipeYieldBack),
    {
        matches!(self, OpOutput::PipeYieldBack)
    }

    pub fn is_finished(&self) -> (r: bool)
        ensures
            r == (*self is Finished),
    {
        matches!(self, OpOutput::Finished(_))
    }

    pub fn is_cancelled(&self) -> (r: bool)
        ensures
            r == (*self is Cancelled),
    {
        matches!(self, OpOutput::Cancelled)
    }

    /// The resumer of a blocked output.
    pub fn resumer(&self) -> (r: Option<&R>)
        ensures
            *self is Blocked ==> r == Some(&self->Blocked_0),
            !(*self is Blocked) ==> r is None,
    {
        match self {
            OpOutput::Blocked(resumer) => Some(resumer),
            _ => None,
        }
    }

    pub fn label(&self) -> (r: &'static str)
        ensures
            r@ == self.spec_kind().spec_label(),
    {
        self.kind().label()
    }
}

} // verus!
