use vstd::prelude::*;

verus! {

/// What the pipeline logic reads of a pipe operator: its identity, whether it drains
/// after its input ends, and the identity of the source that it feeds implicitly.
#[derive(Clone, Copy, Debug, PartialEq, Eq, Structural)]
pub struct PipeInfo {
    pub id: usize,
    pub has_drain: bool,
    pub implicit_source: Option<usize>,
}

impl PipeInfo {
    pub fn new(id: usize) -> (r: Self)
        ensures
            r == (PipeInfo { id, has_drain: false, implicit_source: None }),
    {
        PipeInfo { id, has_drain: false, implicit_source: None }
    }
}

/// A source followed by a chain of pipes; operators are named by their identities.
pub struct PipelineChannel {
    input_id: Option<usize>,
    source: usize,
    pipes: Vec<PipeInfo>,
}

/// The mathematical model of a channel.
pub struct ChannelView {
    pub input_id: Option<usize>,
    pub source: usize,
    pub pipes: Seq<PipeInfo>,
}

impl View for PipelineChannel {
    type V = ChannelView;

    closed spec fn view(&self) -> ChannelView {
        ChannelView { input_id: self.input_id, source: self.source, pipes: self.pipes@ }
    }
}

impl PipelineChannel {
    pub fn new(source: usize, pipes: Vec<PipeInfo>) -> (r: Self)
        ensures
            r@ == (ChannelView { input_id: None, source, pipes: pipes@ }),
    {
        PipelineChannel { input_id: None, source, pipes }
    }

    pub fn with_input_id(input_id: usize, source: usize, pipes: Vec<PipeInfo>) -> (r: Self)
        ensures
            r@ == (ChannelView { input_id: Some(input_id), source, pipes: pipes@ }),
    {
        PipelineChannel { input_id: Some(input_id), source, pipes }
    }

    pub fn source(&self) -> (r: usize)
        ensures
            r == self@.source,
    {
        self.source
    }

    pub fn input_id(&self) -> (r: Option<usize>)
        ensures
            r == self@.input_id,
    {
        self.input_id
    }

    pub fn pipes(&self) -> (r: &[PipeInfo])
        ensures
            r@ == self@.pipes,
    {
        self.pipes.as_slice()
    }
}

impl Clone for PipelineChannel {
    fn clone(&self) -> (r: Self)
        ensures
            r@ == self@,
    {
        PipelineChannel { input_id: self.input_id, source: self.source, pipes: self.pipes.clone() }
    }
}

/// The views of a sequence of channels.
pub open spec fn channel_views(channels: Seq<PipelineChannel>) -> Seq<ChannelView> {
    channels.map_values(|c: PipelineChannel| c@)
}

/// A logical pipeline: channels that all feed one sink.
pub struct Pipeline {
    name: String,
    channels: Vec<PipelineChannel>,
    sink: usize,
}

/// The mathematical model of a pipeline.
pub struct PipelineView {
    pub name: Seq<char>,
    pub channels: Seq<ChannelView>,
    pub sink: usize,
}

impl View for Pipeline {
    type V = PipelineView;

    closed spec fn view(&self) -> PipelineView {
        PipelineView {
            name: self.name@,
            channels: channel_views(self.channels@),
            sink: self.sink,
        }
    }
}

impl Pipeline {
    pub fn new(name: &str, channels: Vec<PipelineChannel>, sink: usize) -> (r: Self)
        ensures
            r@ == (PipelineView { name: name@, channels: channel_views(channels@), sink }),
    {
        Pipeline { name: String::from_str(name), channels, sink }
    }

    pub fn name(&self) -> (r: &str)
        ensures
            r@ == self@.name,
    {
        self.name.as_str()
    }

    pub fn channels(&self) -> (r: &[PipelineChannel])
        ensures
            channel_views(r@) == self@.channels,
    {
        self.channels.as_slice()
    }

    pub fn sink(&self) -> (r: usize)
        ensures
            r == self@.sink,
    {
        self.sink
    }
}

impl Clone for Pipeline {
    fn clone(&self) -> (r: Self)
        ensures
            r@ == self@,
    {
        let mut channels: Vec<PipelineChannel> = Vec::new();
        let mut i: usize = 0;
        while i < self.channels.len()
            invariant
                i <= self.channels.len(),
                channels.len() == i,
                forall|j: int| 0 <= j < i ==> #[trigger] channels@[j]@ == self.channels@[j]@,
            decreases self.channels.len() - i,
        {
            channels.push(self.channels[i].clone());
            i = i + 1;
        }
        let r = Pipeline { name: self.name.clone(), channels, sink: self.sink };
        assert(channel_views(r.channels@) =~= channel_views(self.channels@));
        r
    }
}

} // verus!
