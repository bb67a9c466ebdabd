use std::collections::{BTreeMap, HashMap};

use vstd::prelude::*;

use crate::pipeline::{channel_views, ChannelView, PipeInfo, Pipeline, PipelineChannel, PipelineView};
use crate::pipeline_exec::{PipelineExec, PipelineExecView, Pipelinexe, PipelinexeView};
use crate::order::{lemma_sorted_keys, lemma_usize_keys_ordered, usize_keys_in_order};
use crate::text::{decimal, decimal_spec};
use vstd::std_specs::iter::IteratorSpec;

verus! {

broadcast use {vstd::std_specs::hash::group_hash_axioms, vstd::std_specs::btree::group_btree_axioms};

/// Where a source goes in the compiled pipeline: its stage, and the channel it drives,
/// given as the channel of the pipeline it comes from and the position of the first pipe
/// it keeps. An explicit source keeps the whole channel; an implicit source keeps the
/// pipes after the pipe that feeds it.
#[derive(Clone, Copy, Debug, PartialEq, Eq, Structural)]
pub struct TopologyEntry {
    pub stage: usize,
    pub source: usize,
    pub channel_index: usize,
    pub start: usize,
    pub explicit: bool,
}

/// What compilation knows after visiting a prefix of the pipeline: the entry of each
/// source seen, the sources in the order in which they were seen, and the implicit
/// source of each pipe seen.
pub struct CompileState {
    pub topology: Map<usize, TopologyEntry>,
    pub order: Seq<usize>,
    pub pipe_sources: Map<usize, usize>,
}

pub open spec fn initial_state() -> CompileState {
    CompileState { topology: Map::empty(), order: Seq::empty(), pipe_sources: Map::empty() }
}

/// Visits the pipe at `index` of channel `ci` when the channel has reached `stage`:
/// a pipe seen before pushes its implicit source to a later stage when the source sits at
/// an earlier one; a new pipe with an implicit source opens a stage for that source.
pub open spec fn visit_pipe(st: CompileState, channels: Seq<ChannelView>, ci: int, index: int, stage: nat) -> (CompileState, nat) {
    let pipe = channels[ci].pipes[index];
    if st.pipe_sources.contains_key(pipe.id) {
        let s = st.pipe_sources[pipe.id];
        if st.topology.contains_key(s) && st.topology[s].stage < stage {
            (
                CompileState {
                    topology: st.topology.insert(s, TopologyEntry { stage: stage as usize, ..st.topology[s] }),
                    ..st
                },
                stage + 1,
            )
        } else {
            (st, stage)
        }
    } else {
        match pipe.implicit_source {
            Some(s) => (
                CompileState {
                    topology: st.topology.insert(
                        s,
                        TopologyEntry {
                            stage: stage as usize,
                            source: s,
                            channel_index: ci as usize,
                            start: (index + 1) as usize,
                            explicit: false,
                        },
                    ),
                    order: st.order.push(s),
                    pipe_sources: st.pipe_sources.insert(pipe.id, s),
                },
                stage + 1,
            ),
            None => (st, stage),
        }
    }
}

pub open spec fn visit_pipes(st: CompileState, channels: Seq<ChannelView>, ci: int, index: int, stage: nat) -> CompileState
    decreases channels[ci].pipes.len() - index,
{
    if index < 0 || index >= channels[ci].pipes.len() {
        st
    } else {
        let (next, next_stage) = visit_pipe(st, channels, ci, index, stage);
        visit_pipes(next, channels, ci, index + 1, next_stage)
    }
}

/// Visits channel `ci`: its source enters at stage 0 unless seen before, then its pipes
/// are visited from stage 1 on.
pub open spec fn visit_channel(st: CompileState, channels: Seq<ChannelView>, ci: int) -> CompileState {
    let src = channels[ci].source;
    let topology = if st.topology.contains_key(src) {
        st.topology
    } else {
        st.topology.insert(
            src,
            TopologyEntry { stage: 0, source: src, channel_index: ci as usize, start: 0, explicit: true },
        )
    };
    visit_pipes(CompileState { topology, order: st.order.push(src), ..st }, channels, ci, 0, 1)
}

pub open spec fn visit_channels(st: CompileState, channels: Seq<ChannelView>, ci: int) -> CompileState
    decreases channels.len() - ci,
{
    if ci < 0 || ci >= channels.len() {
        st
    } else {
        visit_channels(visit_channel(st, channels, ci), channels, ci + 1)
    }
}

/// The distinct sources in the order in which they were first seen, with their entries.
pub open spec fn group_sources(
    order: Seq<usize>,
    i: int,
    topology: Map<usize, TopologyEntry>,
    acc: Seq<(usize, TopologyEntry)>,
) -> Seq<(usize, TopologyEntry)>
    decreases order.len() - i,
{
    if i < 0 || i >= order.len() {
        acc
    } else if topology.contains_key(order[i]) {
        group_sources(order, i + 1, topology.remove(order[i]), acc.push((order[i], topology[order[i]])))
    } else {
        group_sources(order, i + 1, topology, acc)
    }
}

/// The channel that an entry drives.
pub open spec fn entry_channel(channels: Seq<ChannelView>, e: TopologyEntry) -> ChannelView {
    if e.explicit {
        channels[e.channel_index as int]
    } else {
        let pipes = channels[e.channel_index as int].pipes;
        ChannelView { input_id: None, source: e.source, pipes: pipes.subrange(e.start as int, pipes.len() as int) }
    }
}

/// The channels of stage `k`, in the order in which their sources were first seen.
pub open spec fn stage_channels(channels: Seq<ChannelView>, grouped: Seq<(usize, TopologyEntry)>, k: nat) -> Seq<ChannelView>
    decreases grouped.len(),
{
    if grouped.len() == 0 {
        Seq::empty()
    } else {
        let rest = stage_channels(channels, grouped.drop_last(), k);
        if grouped.last().1.stage == k {
            rest.push(entry_channel(channels, grouped.last().1))
        } else {
            rest
        }
    }
}

/// The implicit sources of stage `k`, in the order in which they were first seen.
pub open spec fn stage_implicit_sources(grouped: Seq<(usize, TopologyEntry)>, k: nat) -> Seq<usize>
    decreases grouped.len(),
{
    if grouped.len() == 0 {
        Seq::empty()
    } else {
        let rest = stage_implicit_sources(grouped.drop_last(), k);
        if grouped.last().1.stage == k && !grouped.last().1.explicit {
            rest.push(grouped.last().0)
        } else {
            rest
        }
    }
}

pub open spec fn has_stage(grouped: Seq<(usize, TopologyEntry)>, k: nat) -> bool {
    exists|i: int| 0 <= i < grouped.len() && #[trigger] grouped[i].1.stage == k
}

/// The stages below `k` that some source sits at, in increasing order.
pub open spec fn stage_ids_below(grouped: Seq<(usize, TopologyEntry)>, k: nat) -> Seq<nat>
    decreases k,
{
    if k == 0 {
        Seq::empty()
    } else {
        let rest = stage_ids_below(grouped, (k - 1) as nat);
        if has_stage(grouped, (k - 1) as nat) {
            rest.push((k - 1) as nat)
        } else {
            rest
        }
    }
}

pub open spec fn max_stage(grouped: Seq<(usize, TopologyEntry)>) -> nat
    decreases grouped.len(),
{
    if grouped.len() == 0 {
        0
    } else {
        let rest = max_stage(grouped.drop_last());
        if grouped.last().1.stage > rest {
            grouped.last().1.stage as nat
        } else {
            rest
        }
    }
}

pub open spec fn stage_name(pipeline_name: Seq<char>, k: nat) -> Seq<char> {
    "pipelinexe"@ + decimal_spec(k) + "("@ + pipeline_name + ")"@
}

/// Stage `k` of the compiled form of `p`.
pub open spec fn stage_view(p: PipelineView, grouped: Seq<(usize, TopologyEntry)>, dop: nat, k: nat) -> PipelinexeView {
    PipelinexeView {
        name: stage_name(p.name, k),
        channels: stage_channels(p.channels, grouped, k),
        implicit_sources: stage_implicit_sources(grouped, k),
        sink: p.sink,
        dop,
    }
}

/// The sources of `p` and of the implicit sources of its pipes, each with its entry, in
/// the order in which compilation first sees them.
pub open spec fn compiled_sources(p: PipelineView) -> Seq<(usize, TopologyEntry)> {
    let st = visit_channels(initial_state(), p.channels, 0);
    group_sources(st.order, 0, st.topology, Seq::empty())
}

/// The compiled form of `p`: the channels of `p` and of the implicit sources of its pipes,
/// grouped into stages.
pub open spec fn compile_spec(p: PipelineView, dop: nat) -> PipelineExecView {
    let grouped = compiled_sources(p);
    let ids = stage_ids_below(grouped, max_stage(grouped) + 1);
    PipelineExecView {
        name: p.name,
        sink: p.sink,
        pipelinexes: ids.map_values(|k: nat| stage_view(p, grouped, dop, k)),
        dop,
    }
}

/// Every entry names a channel of the pipeline and a position inside it; an explicit
/// entry keeps its whole channel, whose source it is.
pub open spec fn entries_wf(topology: Map<usize, TopologyEntry>, channels: Seq<ChannelView>) -> bool {
    forall|s: usize| #[trigger] topology.contains_key(s) ==> {
        let e = topology[s];
        &&& e.source == s
        &&& e.stage < usize::MAX
        &&& e.channel_index < channels.len()
        &&& e.start <= channels[e.channel_index as int].pipes.len()
        &&& e.explicit ==> e.start == 0 && channels[e.channel_index as int].source == s
    }
}

pub open spec fn pipes_fit(channels: Seq<ChannelView>) -> bool {
    forall|c: int| 0 <= c < channels.len() ==> #[trigger] channels[c].pipes.len() < usize::MAX
}

/// The channel that `e` drives, built from the pipeline's channels.
fn build_channel(channels: &[PipelineChannel], e: TopologyEntry) -> (r: PipelineChannel)
    requires
        e.channel_index < channels@.len(),
        e.start <= channel_views(channels@)[e.channel_index as int].pipes.len(),
    ensures
        r@ == entry_channel(channel_views(channels@), e),
{
    let channel = &channels[e.channel_index];
    if e.explicit {
        channel.clone()
    } else {
        let pipes = channel.pipes();
        let mut kept: Vec<PipeInfo> = Vec::new();
        let mut i: usize = e.start;
        while i < pipes.len()
            invariant
                e.start <= i <= pipes@.len(),
                pipes@ == channel@.pipes,
                kept@ == pipes@.subrange(e.start as int, i as int),
            decreases pipes@.len() - i,
        {
            kept.push(pipes[i]);
            i = i + 1;
        }
        PipelineChannel::new(e.source, kept)
    }
}

/// Compiles `pipeline` for `dop` lanes: splits it into stages around the implicit sources
/// of its pipes. A channel runs in stage 0 from its source; a pipe with an implicit source
/// ends its channel's stage there, and the implicit source drives the pipes after it in a
/// later stage. A pipe shared by several channels opens one implicit source, placed after
/// every stage that feeds the pipe.
pub fn compile(pipeline: &Pipeline, dop: usize) -> (r: PipelineExec)
    requires
        pipes_fit(pipeline@.channels),
    ensures
        r@ == compile_spec(pipeline@, dop as nat),
{
    let channels = pipeline.channels();
    let ghost cv = pipeline@.channels;
    let ghost target = visit_channels(initial_state(), cv, 0);
    let mut topology: HashMap<usize, TopologyEntry> = HashMap::new();
    let mut order: Vec<usize> = Vec::new();
    let mut pipe_sources: HashMap<usize, usize> = HashMap::new();
    let mut ci: usize = 0;
    assert(CompileState { topology: topology@, order: order@, pipe_sources: pipe_sources@ } == initial_state());
    while ci < channels.len()
        invariant
            channel_views(channels@) == cv,
            ci <= channels@.len(),
            pipes_fit(cv),
            entries_wf(topology@, cv),
            visit_channels(
                CompileState { topology: topology@, order: order@, pipe_sources: pipe_sources@ },
                cv,
                ci as int,
            ) == target,
        decreases channels@.len() - ci,
    {
        let ghost st0 = CompileState { topology: topology@, order: order@, pipe_sources: pipe_sources@ };
        let channel = &channels[ci];
        assert(channel@ == cv[ci as int]);
        let src = channel.source();
        if !topology.contains_key(&src) {
            topology.insert(
                src,
                TopologyEntry { stage: 0, source: src, channel_index: ci, start: 0, explicit: true },
            );
        }
        order.push(src);
        let pipes = channel.pipes();
        assert(cv[ci as int].pipes.len() < usize::MAX);
        let mut stage: usize = 1;
        let mut index: usize = 0;
        assert(visit_channel(st0, cv, ci as int) == visit_pipes(
            CompileState { topology: topology@, order: order@, pipe_sources: pipe_sources@ },
            cv,
            ci as int,
            0,
            1,
        ));
        while index < pipes.len()
            invariant
                channel_views(channels@) == cv,
                ci < channels@.len(),
                pipes@ == cv[ci as int].pipes,
                pipes@.len() < usize::MAX,
                pipes_fit(cv),
                index <= pipes@.len(),
                1 <= stage <= index + 1,
                entries_wf(topology@, cv),
                visit_channels(
                    visit_pipes(
                        CompileState { topology: topology@, order: order@, pipe_sources: pipe_sources@ },
                        cv,
                        ci as int,
                        index as int,
                        stage as nat,
                    ),
                    cv,
                    ci + 1,
                ) == target,
            decreases pipes@.len() - index,
        {
            let pipe = pipes[index];
            if pipe_sources.contains_key(&pipe.id) {
                let s = *pipe_sources.get(&pipe.id).unwrap();
                let found: Option<TopologyEntry> = match topology.get(&s) {
                    Some(e) => Some(*e),
                    None => None,
                };
                match found {
                    Some(e) => {
                        if e.stage < stage {
                            topology.insert(s, TopologyEntry { stage, ..e });
                            stage = stage + 1;
                        }
                    },
                    None => {},
                }
            } else {
                match pipe.implicit_source {
                    Some(s) => {
                        pipe_sources.insert(pipe.id, s);
                        topology.insert(
                            s,
                            TopologyEntry { stage, source: s, channel_index: ci, start: index + 1, explicit: false },
                        );
                        order.push(s);
                        stage = stage + 1;
                    },
                    None => {},
                }
            }
            index = index + 1;
        }
        ci = ci + 1;
    }
    assert(CompileState { topology: topology@, order: order@, pipe_sources: pipe_sources@ } == target);

    let ghost grouped_target = group_sources(target.order, 0, target.topology, Seq::empty());
    let mut grouped: Vec<(usize, TopologyEntry)> = Vec::new();
    let mut i: usize = 0;
    while i < order.len()
        invariant
            i <= order@.len(),
            order@ == target.order,
            entries_wf(topology@, cv),
            group_sources(order@, i as int, topology@, grouped@) == grouped_target,
            forall|j: int| 0 <= j < grouped@.len() ==> {
                let (s, e) = #[trigger] grouped@[j];
                &&& e.source == s
                &&& e.stage < usize::MAX
                &&& e.channel_index < cv.len()
                &&& e.start <= cv[e.channel_index as int].pipes.len()
            },
        decreases order@.len() - i,
    {
        let s = order[i];
        let ghost topo_before = topology@;
        let ghost grouped_before = grouped@;
        match topology.remove(&s) {
            Some(e) => {
                assert(topo_before.contains_key(s) && topo_before[s] == e);
                assert(topology@ == topo_before.remove(s));
                grouped.push((s, e));
                assert(group_sources(order@, i as int, topo_before, grouped_before)
                    == group_sources(order@, i + 1, topology@, grouped@));
            },
            None => {
                assert(!topo_before.contains_key(s));
                assert(topology@ == topo_before);
            },
        }
        i = i + 1;
    }
    assert(grouped@ == grouped_target);

    proof {
        lemma_usize_keys_ordered();
    }
    let mut stages: BTreeMap<usize, (Vec<usize>, Vec<PipelineChannel>)> = BTreeMap::new();
    let mut m: usize = 0;
    while m < grouped.len()
        invariant
            m <= grouped@.len(),
            channel_views(channels@) == cv,
            forall|q: int| 0 <= q < grouped@.len() ==> {
                let (s, e) = #[trigger] grouped@[q];
                &&& e.source == s
                &&& e.stage < usize::MAX
                &&& e.channel_index < cv.len()
                &&& e.start <= cv[e.channel_index as int].pipes.len()
            },
            usize_keys_in_order(),
            forall|k: usize| #[trigger] stages@.contains_key(k) == has_stage(grouped@.take(m as int), k as nat),
            forall|k: usize| #[trigger] stages@.contains_key(k) ==> {
                &&& stages@[k].0@ == stage_implicit_sources(grouped@.take(m as int), k as nat)
                &&& channel_views(stages@[k].1@) == stage_channels(cv, grouped@.take(m as int), k as nat)
            },
        decreases grouped@.len() - m,
    {
        let ghost before = grouped@.take(m as int);
        let ghost now = grouped@.take(m + 1);
        assert(now.drop_last() == before);
        assert(now.last() == grouped@[m as int]);
        let (s, e) = grouped[m];
        let channel = build_channel(channels, e);
        let ghost stages_before = stages@;
        let (mut implicit, mut stage_channels_exec) = match stages.remove(&e.stage) {
            Some(found) => found,
            None => (Vec::new(), Vec::new()),
        };
        if !e.explicit {
            implicit.push(s);
        }
        stage_channels_exec.push(channel);
        stages.insert(e.stage, (implicit, stage_channels_exec));
        assert forall|k: usize| #[trigger] stages@.contains_key(k) == has_stage(now, k as nat) by {
            if has_stage(now, k as nat) && k != e.stage {
                let q = choose|q: int| 0 <= q < now.len() && #[trigger] now[q].1.stage == k;
                assert(before[q] == now[q]);
            }
            if has_stage(before, k as nat) {
                let q = choose|q: int| 0 <= q < before.len() && #[trigger] before[q].1.stage == k;
                assert(now[q] == before[q]);
            }
            if k == e.stage {
                assert(now[m as int].1.stage == k);
            }
        }
        assert forall|k: usize| #[trigger] stages@.contains_key(k) implies {
            &&& stages@[k].0@ == stage_implicit_sources(now, k as nat)
            &&& channel_views(stages@[k].1@) == stage_channels(cv, now, k as nat)
        } by {
            if k == e.stage {
                if !stages_before.contains_key(k) {
                    assert(!has_stage(before, k as nat));
                    lemma_no_stage_empty(cv, before, k as nat);
                }
            }
        }
        m = m + 1;
    }
    assert(grouped@.take(m as int) == grouped@);

    proof {
        lemma_sorted_keys(&stages);
    }
    let ghost filled = stages@;
    let ghost sorted = vstd::std_specs::btree::spec_keys_iter(&stages).remaining().unref();
    let mut keys: Vec<usize> = Vec::new();
    for k in it: stages.keys()
        invariant
            keys@ == it.seq().take(it.index() as int).unref(),
            it.seq().unref() == sorted,
    {
        keys.push(*k);
    }
    assert(keys@ == sorted);

    let mut pipelinexes: Vec<Pipelinexe> = Vec::new();
    let mut i: usize = 0;
    while i < keys.len()
        invariant
            i <= keys@.len(),
            keys@ == sorted,
            channel_views(channels@) == cv,
            cv == pipeline@.channels,
            usize_keys_in_order(),
            forall|k: usize| #[trigger] sorted.contains(k) <==> filled.contains_key(k),
            forall|a: int, b: int| 0 <= a < b < sorted.len() ==> sorted[a] < sorted[b],
            forall|j: int| i <= j < keys@.len() ==> #[trigger] stages@.contains_key(keys@[j]) && stages@[keys@[j]] == filled[keys@[j]],
            forall|k: usize| #[trigger] filled.contains_key(k) == has_stage(grouped@, k as nat),
            forall|k: usize| #[trigger] filled.contains_key(k) ==> {
                &&& filled[k].0@ == stage_implicit_sources(grouped@, k as nat)
                &&& channel_views(filled[k].1@) == stage_channels(cv, grouped@, k as nat)
            },
            pipelinexes@.map_values(|p: Pipelinexe| p@)
                == keys@.take(i as int).map_values(|k: usize| stage_view(pipeline@, grouped@, dop as nat, k as nat)),
        decreases keys@.len() - i,
    {
        let k = keys[i];
        assert(sorted.contains(k));
        let (implicit, stage_channels_exec) = stages.remove(&k).unwrap();
        assert forall|j: int| i + 1 <= j < keys@.len() implies #[trigger] stages@.contains_key(keys@[j])
            && stages@[keys@[j]] == filled[keys@[j]] by {
            assert(sorted[i as int] < sorted[j]);
        }
        let name = String::from_str("pipelinexe").concat(decimal(k).as_str()).concat("(").concat(
            pipeline.name(),
        ).concat(")");
        assert(name@ == stage_name(pipeline@.name, k as nat));
        let ghost px_before = pipelinexes@;
        let stage = Pipelinexe::new(name, stage_channels_exec, implicit, pipeline.sink(), dop);
        assert(stage@ == stage_view(pipeline@, grouped@, dop as nat, k as nat));
        pipelinexes.push(stage);
        assert(keys@.take(i + 1) == keys@.take(i as int).push(k));
        assert(pipelinexes@.map_values(|p: Pipelinexe| p@) == px_before.map_values(|p: Pipelinexe| p@).push(
            stage_view(pipeline@, grouped@, dop as nat, k as nat),
        ));
        assert(forall|j: int| i + 1 <= j < keys@.len() ==> #[trigger] stages@.contains_key(keys@[j])
            && stages@[keys@[j]] == filled[keys@[j]]);
        i = i + 1;
    }
    assert(keys@.take(i as int) == keys@);
    proof {
        lemma_stage_ids_are_stages(grouped@);
        let ids = stage_ids_below(grouped@, max_stage(grouped@) + 1);
        let key_ids = sorted.map_values(|k: usize| k as nat);
        assert forall|x: nat| key_ids.contains(x) <==> ids.contains(x) by {
            if key_ids.contains(x) {
                let a = choose|a: int| 0 <= a < key_ids.len() && key_ids[a] == x;
                assert(sorted.contains(sorted[a]));
            }
            if ids.contains(x) {
                assert(has_stage(grouped@, x));
                let q = choose|q: int| 0 <= q < grouped@.len() && #[trigger] grouped@[q].1.stage == x;
                let k = grouped@[q].1.stage;
                assert(filled.contains_key(k));
                let a = choose|a: int| 0 <= a < sorted.len() && sorted[a] == k;
                assert(key_ids[a] == x);
            }
        }
        lemma_same_increasing(key_ids, ids);
        assert(pipelinexes@.map_values(|p: Pipelinexe| p@)
            =~= ids.map_values(|k: nat| stage_view(pipeline@, grouped@, dop as nat, k)));
    }
    PipelineExec::new(String::from_str(pipeline.name()), pipeline.sink(), pipelinexes, dop)
}

proof fn lemma_no_stage_empty(channels: Seq<ChannelView>, grouped: Seq<(usize, TopologyEntry)>, k: nat)
    requires
        !has_stage(grouped, k),
    ensures
        stage_channels(channels, grouped, k) == Seq::<ChannelView>::empty(),
        stage_implicit_sources(grouped, k) == Seq::<usize>::empty(),
    decreases grouped.len(),
{
    if grouped.len() > 0 {
        let rest = grouped.drop_last();
        if has_stage(rest, k) {
            let q = choose|q: int| 0 <= q < rest.len() && #[trigger] rest[q].1.stage == k;
            assert(grouped[q] == rest[q]);
        }
        assert(grouped[grouped.len() - 1].1.stage != k);
        lemma_no_stage_empty(channels, rest, k);
    }
}

/// The stage numbers that compilation lists are the stages that some source sits at, in
/// strictly increasing order.
proof fn lemma_stage_ids_are_stages(grouped: Seq<(usize, TopologyEntry)>)
    requires
        forall|m: int| 0 <= m < grouped.len() ==> (#[trigger] grouped[m]).1.stage < usize::MAX,
    ensures
        ({
            let ids = stage_ids_below(grouped, max_stage(grouped) + 1);
            &&& forall|x: nat| ids.contains(x) <==> has_stage(grouped, x)
            &&& forall|a: int, b: int| 0 <= a < b < ids.len() ==> ids[a] < ids[b]
        }),
{
    let bound = max_stage(grouped) + 1;
    let ids = stage_ids_below(grouped, bound);
    lemma_max_stage_bound(grouped);
    lemma_stage_ids(grouped, bound);
    assert forall|x: nat| ids.contains(x) <==> has_stage(grouped, x) by {
        if ids.contains(x) {
            let a = choose|a: int| 0 <= a < ids.len() && ids[a] == x;
            assert(has_stage(grouped, ids[a]));
        }
        if has_stage(grouped, x) {
            let q = choose|q: int| 0 <= q < grouped.len() && #[trigger] grouped[q].1.stage == x;
            assert(grouped[q].1.stage <= max_stage(grouped));
            lemma_stage_ids_contain(grouped, x, bound);
        }
    }
}

/// Two strictly increasing sequences with the same elements are the same sequence.
proof fn lemma_same_increasing(a: Seq<nat>, b: Seq<nat>)
    requires
        forall|i: int, j: int| 0 <= i < j < a.len() ==> a[i] < a[j],
        forall|i: int, j: int| 0 <= i < j < b.len() ==> b[i] < b[j],
        forall|x: nat| a.contains(x) <==> b.contains(x),
    ensures
        a == b,
    decreases a.len(),
{
    if a.len() == 0 {
        if b.len() > 0 {
            assert(b.contains(b[0]));
        }
        assert(a =~= b);
    } else {
        assert(a.contains(a[0]));
        let p = choose|p: int| 0 <= p < b.len() && b[p] == a[0];
        assert(b.contains(b[0]));
        let q = choose|q: int| 0 <= q < a.len() && a[q] == b[0];
        assert(a[0] == b[0]);
        let a1 = a.drop_first();
        let b1 = b.drop_first();
        assert forall|x: nat| a1.contains(x) <==> b1.contains(x) by {
            if a1.contains(x) {
                let i = choose|i: int| 0 <= i < a1.len() && a1[i] == x;
                assert(a[i + 1] == x);
                assert(b.contains(x));
                let j = choose|j: int| 0 <= j < b.len() && b[j] == x;
                assert(j != 0);
                assert(b1[j - 1] == x);
            }
            if b1.contains(x) {
                let i = choose|i: int| 0 <= i < b1.len() && b1[i] == x;
                assert(b[i + 1] == x);
                assert(a.contains(x));
                let j = choose|j: int| 0 <= j < a.len() && a[j] == x;
                assert(j != 0);
                assert(a1[j - 1] == x);
            }
        }
        lemma_same_increasing(a1, b1);
        assert forall|i: int| 0 <= i < a.len() implies a[i] == b[i] by {
            if i > 0 {
                assert(a[i] == a1[i - 1]);
                assert(b[i] == b1[i - 1]);
            }
        }
        assert(a =~= b);
    }
}

proof fn lemma_max_stage_bound(grouped: Seq<(usize, TopologyEntry)>)
    requires
        forall|m: int| 0 <= m < grouped.len() ==> (#[trigger] grouped[m]).1.stage < usize::MAX,
    ensures
        max_stage(grouped) < usize::MAX,
        forall|m: int| 0 <= m < grouped.len() ==> (#[trigger] grouped[m]).1.stage <= max_stage(grouped),
    decreases grouped.len(),
{
    if grouped.len() > 0 {
        let init = grouped.drop_last();
        assert forall|m: int| 0 <= m < init.len() implies (#[trigger] init[m]).1.stage < usize::MAX by {
            assert(init[m] == grouped[m]);
        }
        lemma_max_stage_bound(init);
        assert forall|m: int| 0 <= m < grouped.len() implies (#[trigger] grouped[m]).1.stage <= max_stage(grouped) by {
            if m < init.len() {
                assert(init[m] == grouped[m]);
            }
        }
    }
}

} // verus!

verus! {

/// No pipe of the channels has an implicit source.
pub open spec fn no_implicit_sources(channels: Seq<ChannelView>) -> bool {
    forall|c: int, j: int| 0 <= c < channels.len() && 0 <= j < channels[c].pipes.len() ==>
        (#[trigger] channels[c].pipes[j]).implicit_source is None
}

/// No two channels share a source.
pub open spec fn distinct_sources(channels: Seq<ChannelView>) -> bool {
    forall|a: int, b: int| 0 <= a < b < channels.len() ==> #[trigger] channels[a].source != #[trigger] channels[b].source
}

pub open spec fn explicit_entry(channels: Seq<ChannelView>, c: int) -> TopologyEntry {
    TopologyEntry { stage: 0, source: channels[c].source, channel_index: c as usize, start: 0, explicit: true }
}

/// The state after visiting the first `k` channels when no pipe has an implicit source.
pub open spec fn explicit_state(channels: Seq<ChannelView>, k: nat) -> CompileState
    decreases k,
{
    if k == 0 {
        initial_state()
    } else {
        let prev = explicit_state(channels, (k - 1) as nat);
        let s = channels[k - 1].source;
        CompileState {
            topology: prev.topology.insert(s, explicit_entry(channels, k - 1)),
            order: prev.order.push(s),
            pipe_sources: prev.pipe_sources,
        }
    }
}

proof fn lemma_explicit_state(channels: Seq<ChannelView>, k: nat)
    requires
        k <= channels.len(),
        distinct_sources(channels),
    ensures
        explicit_state(channels, k).pipe_sources == Map::<usize, usize>::empty(),
        explicit_state(channels, k).order.len() == k,
        forall|i: int| 0 <= i < k ==> #[trigger] explicit_state(channels, k).order[i] == channels[i].source,
        forall|s: usize| #[trigger] explicit_state(channels, k).topology.contains_key(s) <==>
            exists|i: int| 0 <= i < k && channels[i].source == s,
        forall|i: int| 0 <= i < k ==> #[trigger] explicit_state(channels, k).topology[channels[i].source]
            == explicit_entry(channels, i),
    decreases k,
{
    if k > 0 {
        lemma_explicit_state(channels, (k - 1) as nat);
        let prev = explicit_state(channels, (k - 1) as nat);
        let cur = explicit_state(channels, k);
        assert forall|s: usize| #[trigger] cur.topology.contains_key(s) <==>
            exists|i: int| 0 <= i < k && channels[i].source == s by {
            if cur.topology.contains_key(s) && s != channels[k - 1].source {
                assert(prev.topology.contains_key(s));
            }
            if exists|i: int| 0 <= i < k && channels[i].source == s {
                let i = choose|i: int| 0 <= i < k && channels[i].source == s;
                if i < k - 1 {
                    assert(prev.topology.contains_key(s));
                }
            }
        }
        assert forall|i: int| 0 <= i < k implies #[trigger] cur.topology[channels[i].source] == explicit_entry(channels, i) by {
            if i < k - 1 {
                assert(channels[i].source != channels[k - 1].source);
            }
        }
    }
}

proof fn lemma_visit_pipes_unchanged(st: CompileState, channels: Seq<ChannelView>, ci: int, index: int, stage: nat)
    requires
        0 <= ci < channels.len(),
        no_implicit_sources(channels),
        st.pipe_sources == Map::<usize, usize>::empty(),
    ensures
        visit_pipes(st, channels, ci, index, stage) == st,
    decreases channels[ci].pipes.len() - index,
{
    if 0 <= index < channels[ci].pipes.len() {
        assert(channels[ci].pipes[index].implicit_source is None);
        lemma_visit_pipes_unchanged(st, channels, ci, index + 1, stage);
    }
}

proof fn lemma_visit_channels_explicit(channels: Seq<ChannelView>, k: nat)
    requires
        k <= channels.len(),
        no_implicit_sources(channels),
        distinct_sources(channels),
    ensures
        visit_channels(initial_state(), channels, 0) == visit_channels(explicit_state(channels, k), channels, k as int),
    decreases k,
{
    if k > 0 {
        let j = (k - 1) as nat;
        lemma_visit_channels_explicit(channels, j);
        lemma_explicit_state(channels, j);
        let prev = explicit_state(channels, j);
        let s = channels[j as int].source;
        assert(!prev.topology.contains_key(s)) by {
            if prev.topology.contains_key(s) {
                let i = choose|i: int| 0 <= i < j && channels[i].source == s;
                assert(channels[i].source != channels[j as int].source);
            }
        }
        let entered = CompileState {
            topology: prev.topology.insert(s, TopologyEntry { stage: 0, source: s, channel_index: j as usize, start: 0, explicit: true }),
            order: prev.order.push(s),
            pipe_sources: prev.pipe_sources,
        };
        lemma_visit_pipes_unchanged(entered, channels, j as int, 0, 1);
        assert(visit_channel(prev, channels, j as int) == explicit_state(channels, k));
    }
}

/// The pairs that grouping adds from position `i` on, when every source from there on is
/// new and known.
pub open spec fn pairs_from(order: Seq<usize>, topology: Map<usize, TopologyEntry>, i: int) -> Seq<(usize, TopologyEntry)> {
    Seq::new((order.len() - i) as nat, |j: int| (order[i + j], topology[order[i + j]]))
}

proof fn lemma_group_distinct(order: Seq<usize>, i: int, topology: Map<usize, TopologyEntry>, acc: Seq<(usize, TopologyEntry)>)
    requires
        0 <= i <= order.len(),
        forall|a: int, b: int| i <= a < b < order.len() ==> order[a] != order[b],
        forall|a: int| i <= a < order.len() ==> topology.contains_key(#[trigger] order[a]),
    ensures
        group_sources(order, i, topology, acc) == acc + pairs_from(order, topology, i),
    decreases order.len() - i,
{
    if i < order.len() {
        let s = order[i];
        let rest = topology.remove(s);
        assert forall|a: int| i + 1 <= a < order.len() implies rest.contains_key(#[trigger] order[a]) by {
            assert(order[a] != order[i]);
        }
        lemma_group_distinct(order, i + 1, rest, acc.push((s, topology[s])));
        assert(pairs_from(order, rest, i + 1) =~= pairs_from(order, topology, i + 1)) by {
            assert forall|j: int| 0 <= j < order.len() - (i + 1) implies
                #[trigger] pairs_from(order, rest, i + 1)[j] == pairs_from(order, topology, i + 1)[j] by {
                assert(order[i + 1 + j] != order[i]);
            }
        }
        assert(acc.push((s, topology[s])) + pairs_from(order, topology, i + 1) =~= acc + pairs_from(order, topology, i));
    } else {
        assert(pairs_from(order, topology, i) =~= Seq::<(usize, TopologyEntry)>::empty());
        assert(acc + pairs_from(order, topology, i) =~= acc);
    }
}

proof fn lemma_explicit_grouping(channels: Seq<ChannelView>, grouped: Seq<(usize, TopologyEntry)>, m: nat)
    requires
        m <= grouped.len(),
        grouped.len() == channels.len(),
        channels.len() <= usize::MAX,
        forall|j: int| 0 <= j < grouped.len() ==> #[trigger] grouped[j].1 == explicit_entry(channels, j),
    ensures
        stage_channels(channels, grouped.take(m as int), 0) == channels.take(m as int),
        stage_implicit_sources(grouped.take(m as int), 0) == Seq::<usize>::empty(),
        max_stage(grouped.take(m as int)) == 0,
        has_stage(grouped.take(m as int), 0) == (m > 0),
    decreases m,
{
    if m > 0 {
        let g = grouped.take(m as int);
        lemma_explicit_grouping(channels, grouped, (m - 1) as nat);
        assert(g.drop_last() == grouped.take(m - 1));
        assert(g.last() == grouped[m - 1]);
        assert(g.last().1 == explicit_entry(channels, m - 1));
        assert(entry_channel(channels, g.last().1) == channels[m - 1]);
        assert(channels.take(m as int) =~= channels.take(m - 1).push(channels[m - 1]));
        assert(g[m - 1].1.stage == 0);
        assert(stage_channels(channels, g, 0) == stage_channels(channels, g.drop_last(), 0).push(channels[m - 1]));
    } else {
        assert(grouped.take(0) == Seq::<(usize, TopologyEntry)>::empty());
        assert(channels.take(0) == Seq::<ChannelView>::empty());
    }
}

/// Compilation does not touch a pipeline in which no pipe has an implicit source and no
/// two channels share a source: such a pipeline runs as one stage, stage 0, with its
/// channels as they are and no implicit source; a pipeline without channels has no stage.
proof fn lemma_explicit_compiled_sources(p: PipelineView)
    requires
        no_implicit_sources(p.channels),
        distinct_sources(p.channels),
    ensures
        compiled_sources(p).len() == p.channels.len(),
        forall|j: int| 0 <= j < p.channels.len() ==> #[trigger] compiled_sources(p)[j].1 == explicit_entry(p.channels, j),
{
    let ch = p.channels;
    let n = ch.len();
    lemma_visit_channels_explicit(ch, n);
    lemma_explicit_state(ch, n);
    let st = explicit_state(ch, n);
    assert(visit_channels(initial_state(), ch, 0) == st);
    assert forall|a: int, b: int| 0 <= a < b < st.order.len() implies st.order[a] != st.order[b] by {
        assert(ch[a].source != ch[b].source);
    }
    assert forall|a: int| 0 <= a < st.order.len() implies st.topology.contains_key(#[trigger] st.order[a]) by {
        assert(st.order[a] == ch[a].source);
    }
    lemma_group_distinct(st.order, 0, st.topology, Seq::empty());
    let grouped = compiled_sources(p);
    assert(grouped =~= pairs_from(st.order, st.topology, 0));
    assert forall|j: int| 0 <= j < n implies #[trigger] grouped[j].1 == explicit_entry(ch, j) by {
        assert(st.order[j] == ch[j].source);
    }
}

/// Compilation does not touch a pipeline in which no pipe has an implicit source and no
/// two channels share a source: such a pipeline runs as one stage, stage 0, with its
/// channels as they are and no implicit source; a pipeline without channels has no stage.
pub proof fn law_compile_non_invasive(p: PipelineView, dop: nat)
    requires
        no_implicit_sources(p.channels),
        distinct_sources(p.channels),
        p.channels.len() <= usize::MAX,
    ensures
        p.channels.len() == 0 ==> compile_spec(p, dop).pipelinexes.len() == 0,
        p.channels.len() > 0 ==> {
            let stages = compile_spec(p, dop).pipelinexes;
            &&& stages.len() == 1
            &&& stages[0].channels == p.channels
            &&& stages[0].implicit_sources == Seq::<usize>::empty()
            &&& stages[0].name == stage_name(p.name, 0)
            &&& stages[0].sink == p.sink
            &&& stages[0].dop == dop
        },
        compile_spec(p, dop).name == p.name,
        compile_spec(p, dop).sink == p.sink,
        compile_spec(p, dop).dop == dop,
{
    let ch = p.channels;
    let n = ch.len();
    lemma_explicit_compiled_sources(p);
    let grouped = compiled_sources(p);
    lemma_explicit_grouping(ch, grouped, n);
    assert(grouped.take(n as int) == grouped);
    assert(ch.take(n as int) == ch);
    let ids = stage_ids_below(grouped, max_stage(grouped) + 1);
    assert(ids == stage_ids_below(grouped, 1));
    assert(stage_ids_below(grouped, 0) == Seq::<nat>::empty());
    if n > 0 {
        assert(ids == seq![0nat]);
    } else {
        assert(ids == Seq::<nat>::empty());
    }
}

proof fn lemma_has_stage_nonempty(channels: Seq<ChannelView>, grouped: Seq<(usize, TopologyEntry)>, k: nat)
    requires
        has_stage(grouped, k),
    ensures
        stage_channels(channels, grouped, k).len() > 0,
    decreases grouped.len(),
{
    if grouped.last().1.stage != k {
        let i = choose|i: int| 0 <= i < grouped.len() && #[trigger] grouped[i].1.stage == k;
        assert(grouped.drop_last()[i].1.stage == k);
        lemma_has_stage_nonempty(channels, grouped.drop_last(), k);
    }
}

proof fn lemma_stage_ids(grouped: Seq<(usize, TopologyEntry)>, k: nat)
    ensures
        forall|i: int| 0 <= i < stage_ids_below(grouped, k).len() ==> {
            &&& has_stage(grouped, #[trigger] stage_ids_below(grouped, k)[i])
            &&& stage_ids_below(grouped, k)[i] < k
        },
        forall|i: int, j: int| 0 <= i < j < stage_ids_below(grouped, k).len() ==>
            stage_ids_below(grouped, k)[i] < stage_ids_below(grouped, k)[j],
    decreases k,
{
    if k > 0 {
        lemma_stage_ids(grouped, (k - 1) as nat);
        let rest = stage_ids_below(grouped, (k - 1) as nat);
        let cur = stage_ids_below(grouped, k);
        if has_stage(grouped, (k - 1) as nat) {
            assert(cur == rest.push((k - 1) as nat));
            assert forall|i: int| 0 <= i < cur.len() implies {
                &&& has_stage(grouped, #[trigger] cur[i])
                &&& cur[i] < k
            } by {
                if i < rest.len() {
                    assert(cur[i] == rest[i]);
                }
            }
            assert forall|i: int, j: int| 0 <= i < j < cur.len() implies cur[i] < cur[j] by {
                assert(cur[i] == rest[i]);
                if j < rest.len() {
                    assert(cur[j] == rest[j]);
                }
            }
        }
    }
}

/// Every stage of a compiled pipeline has at least one channel, and the stages come in
/// increasing order of their stage numbers, which their names carry.
pub proof fn law_compile_stages_nonempty(p: PipelineView, dop: nat)
    ensures
        ({
            let grouped = compiled_sources(p);
            let ids = stage_ids_below(grouped, max_stage(grouped) + 1);
            let stages = compile_spec(p, dop).pipelinexes;
            &&& stages.len() == ids.len()
            &&& forall|i: int| 0 <= i < stages.len() ==> (#[trigger] stages[i]).channels.len() > 0
            &&& forall|i: int| 0 <= i < stages.len() ==> (#[trigger] stages[i]).name == stage_name(p.name, ids[i])
            &&& forall|i: int, j: int| 0 <= i < j < ids.len() ==> ids[i] < ids[j]
        }),
{
    let grouped = compiled_sources(p);
    let ids = stage_ids_below(grouped, max_stage(grouped) + 1);
    lemma_stage_ids(grouped, max_stage(grouped) + 1);
    let stages = compile_spec(p, dop).pipelinexes;
    assert forall|i: int| 0 <= i < stages.len() implies (#[trigger] stages[i]).channels.len() > 0 by {
        lemma_has_stage_nonempty(p.channels, grouped, ids[i]);
    }
}

} // verus!

verus! {

/// Where compilation may put a source: as the source of one of the pipeline's channels,
/// driving that whole channel, or as the implicit source of a pipe, driving the pipes
/// after that pipe.
pub open spec fn entry_placed(channels: Seq<ChannelView>, s: usize, e: TopologyEntry) -> bool {
    &&& e.source == s
    &&& e.channel_index < channels.len()
    &&& (e.explicit <==> e.stage == 0)
    &&& if e.explicit {
        e.start == 0 && channels[e.channel_index as int].source == s
    } else {
        &&& 1 <= e.start <= channels[e.channel_index as int].pipes.len()
        &&& channels[e.channel_index as int].pipes[e.start - 1].implicit_source == Some(s)
    }
}

pub open spec fn entries_placed(topology: Map<usize, TopologyEntry>, channels: Seq<ChannelView>) -> bool {
    forall|s: usize| #[trigger] topology.contains_key(s) ==> entry_placed(channels, s, topology[s])
}

/// The implicit source recorded for a pipe has an entry, and that entry is implicit.
pub open spec fn pipe_sources_implicit(st: CompileState) -> bool {
    forall|id: usize| #[trigger] st.pipe_sources.contains_key(id) ==> {
        &&& st.topology.contains_key(st.pipe_sources[id])
        &&& !st.topology[st.pipe_sources[id]].explicit
    }
}

/// `c` is a channel of the pipeline, or the pipes after a pipe of a pipeline channel,
/// driven by that pipe's implicit source.
pub open spec fn channel_from(channels: Seq<ChannelView>, c: ChannelView) -> bool {
    ||| exists|ci: int| 0 <= ci < channels.len() && c == #[trigger] channels[ci]
    ||| exists|ci: int, j: int| {
        &&& 0 <= ci < channels.len()
        &&& 0 <= j < channels[ci].pipes.len()
        &&& (#[trigger] channels[ci].pipes[j]).implicit_source == Some(c.source)
        &&& c.input_id is None
        &&& c.pipes == channels[ci].pipes.subrange(j + 1, channels[ci].pipes.len() as int)
    }
}

proof fn lemma_visit_pipes_placed(st: CompileState, channels: Seq<ChannelView>, ci: int, index: int, stage: nat)
    requires
        0 <= ci < channels.len() <= usize::MAX,
        pipes_fit(channels),
        0 <= index,
        1 <= stage <= index + 1,
        entries_placed(st.topology, channels),
        pipe_sources_implicit(st),
    ensures
        entries_placed(visit_pipes(st, channels, ci, index, stage).topology, channels),
        pipe_sources_implicit(visit_pipes(st, channels, ci, index, stage)),
    decreases channels[ci].pipes.len() - index,
{
    if index < channels[ci].pipes.len() {
        let (next, next_stage) = visit_pipe(st, channels, ci, index, stage);
        let pipe = channels[ci].pipes[index];
        assert(channels[ci].pipes.len() < usize::MAX);
        if st.pipe_sources.contains_key(pipe.id) {
            let src = st.pipe_sources[pipe.id];
            if st.topology.contains_key(src) && st.topology[src].stage < stage {
                assert(entry_placed(channels, src, st.topology[src]));
                assert(entry_placed(channels, src, next.topology[src]));
                assert(entries_placed(next.topology, channels));
                assert(pipe_sources_implicit(next));
            }
        } else if let Some(src) = pipe.implicit_source {
            let e = next.topology[src];
            assert(e.channel_index == ci);
            assert(e.start == index + 1);
            assert(entry_placed(channels, src, e));
            assert(entries_placed(next.topology, channels));
            assert forall|id: usize| #[trigger] next.pipe_sources.contains_key(id) implies {
                &&& next.topology.contains_key(next.pipe_sources[id])
                &&& !next.topology[next.pipe_sources[id]].explicit
            } by {
                if id != pipe.id {
                    assert(st.pipe_sources.contains_key(id));
                }
            }
        }
        lemma_visit_pipes_placed(next, channels, ci, index + 1, next_stage);
    }
}

proof fn lemma_visit_channels_placed(st: CompileState, channels: Seq<ChannelView>, ci: int)
    requires
        0 <= ci,
        channels.len() <= usize::MAX,
        pipes_fit(channels),
        entries_placed(st.topology, channels),
        pipe_sources_implicit(st),
    ensures
        entries_placed(visit_channels(st, channels, ci).topology, channels),
        pipe_sources_implicit(visit_channels(st, channels, ci)),
    decreases channels.len() - ci,
{
    if ci < channels.len() {
        let src = channels[ci].source;
        let topology = if st.topology.contains_key(src) {
            st.topology
        } else {
            st.topology.insert(
                src,
                TopologyEntry { stage: 0, source: src, channel_index: ci as usize, start: 0, explicit: true },
            )
        };
        if !st.topology.contains_key(src) {
            assert(entry_placed(channels, src, topology[src]));
        }
        assert(entries_placed(topology, channels));
        let entered = CompileState { topology, order: st.order.push(src), ..st };
        assert(pipe_sources_implicit(entered));
        lemma_visit_pipes_placed(entered, channels, ci, 0, 1);
        lemma_visit_channels_placed(visit_channel(st, channels, ci), channels, ci + 1);
    }
}

proof fn lemma_group_sources_placed(
    channels: Seq<ChannelView>,
    order: Seq<usize>,
    i: int,
    topology: Map<usize, TopologyEntry>,
    acc: Seq<(usize, TopologyEntry)>,
)
    requires
        entries_placed(topology, channels),
        forall|j: int| 0 <= j < acc.len() ==> entry_placed(channels, (#[trigger] acc[j]).0, acc[j].1),
    ensures
        forall|j: int| 0 <= j < group_sources(order, i, topology, acc).len() ==>
            entry_placed(channels, (#[trigger] group_sources(order, i, topology, acc)[j]).0,
                group_sources(order, i, topology, acc)[j].1),
    decreases order.len() - i,
{
    if 0 <= i < order.len() {
        if topology.contains_key(order[i]) {
            let next = acc.push((order[i], topology[order[i]]));
            assert forall|j: int| 0 <= j < next.len() implies entry_placed(channels, (#[trigger] next[j]).0, next[j].1) by {
                if j < acc.len() {
                    assert(next[j] == acc[j]);
                }
            }
            let rest = topology.remove(order[i]);
            assert forall|s: usize| #[trigger] rest.contains_key(s) implies entry_placed(channels, s, rest[s]) by {
                assert(topology.contains_key(s));
            }
            lemma_group_sources_placed(channels, order, i + 1, rest, next);
            assert(group_sources(order, i, topology, acc) == group_sources(order, i + 1, rest, next));
        } else {
            lemma_group_sources_placed(channels, order, i + 1, topology, acc);
            assert(group_sources(order, i, topology, acc) == group_sources(order, i + 1, topology, acc));
        }
    }
}

proof fn lemma_stage_channels_from(channels: Seq<ChannelView>, grouped: Seq<(usize, TopologyEntry)>, k: nat)
    requires
        forall|j: int| 0 <= j < grouped.len() ==> entry_placed(channels, (#[trigger] grouped[j]).0, grouped[j].1),
    ensures
        forall|m: int| 0 <= m < stage_channels(channels, grouped, k).len() ==>
            channel_from(channels, #[trigger] stage_channels(channels, grouped, k)[m]),
    decreases grouped.len(),
{
    if grouped.len() > 0 {
        let rest = grouped.drop_last();
        assert forall|j: int| 0 <= j < rest.len() implies entry_placed(channels, (#[trigger] rest[j]).0, rest[j].1) by {
            assert(rest[j] == grouped[j]);
        }
        lemma_stage_channels_from(channels, rest, k);
        let last = grouped[grouped.len() - 1];
        assert(entry_placed(channels, last.0, last.1));
        let e = last.1;
        let c = entry_channel(channels, e);
        let ci = e.channel_index as int;
        if e.explicit {
            assert(c == channels[ci]);
        } else {
            let j = e.start - 1;
            assert(channels[ci].pipes[j].implicit_source == Some(c.source));
        }
        assert(channel_from(channels, c));
        let before = stage_channels(channels, rest, k);
        let all = stage_channels(channels, grouped, k);
        assert forall|m: int| 0 <= m < all.len() implies channel_from(channels, #[trigger] all[m]) by {
            if m < before.len() {
                assert(all[m] == before[m]);
            } else {
                assert(all[m] == c);
            }
        }
    }
}

/// Compilation splits channels and invents nothing: every channel of every compiled stage
/// is either a channel of the pipeline, or the pipes that follow a pipe of a pipeline
/// channel, driven by that pipe's implicit source.
pub proof fn law_compile_splits_at_implicit_sources(p: PipelineView, dop: nat)
    requires
        p.channels.len() <= usize::MAX,
        pipes_fit(p.channels),
    ensures
        forall|i: int, m: int|
            0 <= i < compile_spec(p, dop).pipelinexes.len() && 0 <= m < compile_spec(p, dop).pipelinexes[i].channels.len()
                ==> channel_from(p.channels, #[trigger] compile_spec(p, dop).pipelinexes[i].channels[m]),
{
    let st = visit_channels(initial_state(), p.channels, 0);
    lemma_visit_channels_placed(initial_state(), p.channels, 0);
    lemma_group_sources_placed(p.channels, st.order, 0, st.topology, Seq::empty());
    let grouped = compiled_sources(p);
    let ids = stage_ids_below(grouped, max_stage(grouped) + 1);
    let stages = compile_spec(p, dop).pipelinexes;
    assert forall|i: int, m: int| 0 <= i < stages.len() && 0 <= m < stages[i].channels.len() implies channel_from(
        p.channels,
        #[trigger] stages[i].channels[m],
    ) by {
        lemma_stage_channels_from(p.channels, grouped, ids[i]);
        assert(stages[i].channels == stage_channels(p.channels, grouped, ids[i]));
    }
}


proof fn lemma_stage_split(channels: Seq<ChannelView>, grouped: Seq<(usize, TopologyEntry)>, k: nat)
    requires
        forall|j: int| 0 <= j < grouped.len() ==> entry_placed(channels, (#[trigger] grouped[j]).0, grouped[j].1),
    ensures
        k == 0 ==> stage_implicit_sources(grouped, k).len() == 0,
        k == 0 ==> forall|m: int| 0 <= m < stage_channels(channels, grouped, k).len() ==>
            exists|ci: int| 0 <= ci < channels.len() && #[trigger] stage_channels(channels, grouped, k)[m] == channels[ci],
        k > 0 ==> stage_implicit_sources(grouped, k).len() == stage_channels(channels, grouped, k).len(),
        k > 0 ==> forall|m: int| 0 <= m < stage_channels(channels, grouped, k).len() ==> {
            &&& (#[trigger] stage_channels(channels, grouped, k)[m]).source == stage_implicit_sources(grouped, k)[m]
            &&& stage_channels(channels, grouped, k)[m].input_id is None
        },
    decreases grouped.len(),
{
    if grouped.len() > 0 {
        let rest = grouped.drop_last();
        assert forall|j: int| 0 <= j < rest.len() implies entry_placed(channels, (#[trigger] rest[j]).0, rest[j].1) by {
            assert(rest[j] == grouped[j]);
        }
        lemma_stage_split(channels, rest, k);
        let last = grouped[grouped.len() - 1];
        assert(entry_placed(channels, last.0, last.1));
        let e = last.1;
        let before = stage_channels(channels, rest, k);
        let all = stage_channels(channels, grouped, k);
        let srcs = stage_implicit_sources(grouped, k);
        if e.stage == k {
            assert(all[all.len() - 1] == entry_channel(channels, e));
            if k == 0 {
                assert(all[all.len() - 1] == channels[e.channel_index as int]);
                assert forall|m: int| 0 <= m < all.len() implies
                    exists|ci: int| 0 <= ci < channels.len() && #[trigger] all[m] == channels[ci] by {
                    if m < before.len() {
                        assert(all[m] == before[m]);
                    } else {
                        assert(all[m] == channels[e.channel_index as int]);
                    }
                }
            } else {
                assert forall|m: int| 0 <= m < all.len() implies {
                    &&& (#[trigger] all[m]).source == srcs[m]
                    &&& all[m].input_id is None
                } by {
                    if m < before.len() {
                        assert(all[m] == before[m]);
                        assert(srcs[m] == stage_implicit_sources(rest, k)[m]);
                    }
                }
            }
        } else {
            assert(all == before);
            assert(srcs == stage_implicit_sources(rest, k));
        }
    }
}

/// Stage splitting: the stage numbered 0 runs channels of the pipeline from their own
/// sources and holds no implicit source; every later stage runs only channels driven by
/// its implicit sources, one channel per implicit source, in the same order.
pub proof fn law_compile_stage_zero_runs_pipeline_sources(p: PipelineView, dop: nat)
    requires
        p.channels.len() <= usize::MAX,
        pipes_fit(p.channels),
    ensures
        ({
            let grouped = compiled_sources(p);
            let ids = stage_ids_below(grouped, max_stage(grouped) + 1);
            let stages = compile_spec(p, dop).pipelinexes;
            &&& forall|i: int| 0 <= i < stages.len() && ids[i] == 0 ==> {
                &&& (#[trigger] stages[i]).implicit_sources.len() == 0
                &&& forall|m: int| 0 <= m < stages[i].channels.len() ==>
                    exists|ci: int| 0 <= ci < p.channels.len() && #[trigger] stages[i].channels[m] == p.channels[ci]
            }
            &&& forall|i: int| 0 <= i < stages.len() && ids[i] > 0 ==> {
                &&& (#[trigger] stages[i]).implicit_sources.len() == stages[i].channels.len()
                &&& forall|m: int| 0 <= m < stages[i].channels.len() ==> {
                    &&& (#[trigger] stages[i].channels[m]).source == stages[i].implicit_sources[m]
                    &&& stages[i].channels[m].input_id is None
                }
            }
        }),
{
    let st = visit_channels(initial_state(), p.channels, 0);
    lemma_visit_channels_placed(initial_state(), p.channels, 0);
    lemma_group_sources_placed(p.channels, st.order, 0, st.topology, Seq::empty());
    let grouped = compiled_sources(p);
    let ids = stage_ids_below(grouped, max_stage(grouped) + 1);
    let stages = compile_spec(p, dop).pipelinexes;
    assert forall|i: int| 0 <= i < stages.len() && ids[i] == 0 implies {
        &&& (#[trigger] stages[i]).implicit_sources.len() == 0
        &&& forall|m: int| 0 <= m < stages[i].channels.len() ==>
            exists|ci: int| 0 <= ci < p.channels.len() && #[trigger] stages[i].channels[m] == p.channels[ci]
    } by {
        lemma_stage_split(p.channels, grouped, ids[i]);
        assert(stages[i] == stage_view(p, grouped, dop, ids[i]));
    }
    assert forall|i: int| 0 <= i < stages.len() && ids[i] > 0 implies {
        &&& (#[trigger] stages[i]).implicit_sources.len() == stages[i].channels.len()
        &&& forall|m: int| 0 <= m < stages[i].channels.len() ==> {
            &&& (#[trigger] stages[i].channels[m]).source == stages[i].implicit_sources[m]
            &&& stages[i].channels[m].input_id is None
        }
    } by {
        lemma_stage_split(p.channels, grouped, ids[i]);
        assert(stages[i] == stage_view(p, grouped, dop, ids[i]));
    }
}

} // verus!

verus! {

/// The source of channel `ci` drives no other channel and is no pipe's implicit source.
pub open spec fn sole_source(channels: Seq<ChannelView>, ci: int) -> bool {
    &&& forall|cj: int| 0 <= cj < channels.len() && cj != ci ==> #[trigger] channels[cj].source != channels[ci].source
    &&& forall|c: int, j: int| 0 <= c < channels.len() && 0 <= j < channels[c].pipes.len() ==>
        (#[trigger] channels[c].pipes[j]).implicit_source != Some(channels[ci].source)
}

proof fn lemma_visit_pipes_keep(st: CompileState, channels: Seq<ChannelView>, ci: int, index: int, stage: nat, s: usize)
    requires
        0 <= ci < channels.len(),
        0 <= index,
        forall|c: int, j: int| 0 <= c < channels.len() && 0 <= j < channels[c].pipes.len() ==>
            (#[trigger] channels[c].pipes[j]).implicit_source != Some(s),
        forall|id: usize| #[trigger] st.pipe_sources.contains_key(id) ==> st.pipe_sources[id] != s,
    ensures
        ({
            let after = visit_pipes(st, channels, ci, index, stage);
            &&& forall|id: usize| #[trigger] after.pipe_sources.contains_key(id) ==> after.pipe_sources[id] != s
            &&& after.topology.contains_key(s) == st.topology.contains_key(s)
            &&& st.topology.contains_key(s) ==> after.topology[s] == st.topology[s]
            &&& st.order.contains(s) ==> after.order.contains(s)
        }),
    decreases channels[ci].pipes.len() - index,
{
    if index < channels[ci].pipes.len() {
        let (next, next_stage) = visit_pipe(st, channels, ci, index, stage);
        let pipe = channels[ci].pipes[index];
        if !st.pipe_sources.contains_key(pipe.id) {
            if let Some(src) = pipe.implicit_source {
                assert(src != s);
                if st.order.contains(s) {
                    let k = choose|k: int| 0 <= k < st.order.len() && st.order[k] == s;
                    assert(next.order[k] == s);
                }
                assert forall|id: usize| #[trigger] next.pipe_sources.contains_key(id) implies next.pipe_sources[id] != s by {
                    if id != pipe.id {
                        assert(st.pipe_sources.contains_key(id));
                    }
                }
            }
        }
        lemma_visit_pipes_keep(next, channels, ci, index + 1, next_stage, s);
    }
}

proof fn lemma_visit_channels_sole(st: CompileState, channels: Seq<ChannelView>, k: int, ci: int)
    requires
        0 <= k,
        0 <= ci < channels.len() <= usize::MAX,
        sole_source(channels, ci),
        forall|id: usize| #[trigger] st.pipe_sources.contains_key(id) ==> st.pipe_sources[id] != channels[ci].source,
        k <= ci ==> !st.topology.contains_key(channels[ci].source),
        k > ci ==> st.topology.contains_key(channels[ci].source) && st.order.contains(channels[ci].source)
            && st.topology[channels[ci].source] == explicit_entry(channels, ci),
    ensures
        ({
            let after = visit_channels(st, channels, k);
            &&& after.topology.contains_key(channels[ci].source)
            &&& after.order.contains(channels[ci].source)
            &&& after.topology[channels[ci].source] == explicit_entry(channels, ci)
        }),
    decreases channels.len() - k,
{
    let s = channels[ci].source;
    if k < channels.len() {
        let src = channels[k].source;
        let topology = if st.topology.contains_key(src) {
            st.topology
        } else {
            st.topology.insert(
                src,
                TopologyEntry { stage: 0, source: src, channel_index: k as usize, start: 0, explicit: true },
            )
        };
        let entered = CompileState { topology, order: st.order.push(src), ..st };
        assert(entered.order[entered.order.len() - 1] == src);
        if k > ci {
            let q = choose|q: int| 0 <= q < st.order.len() && st.order[q] == s;
            assert(entered.order[q] == s);
            assert(src != s);
        }
        lemma_visit_pipes_keep(entered, channels, k, 0, 1, s);
        lemma_visit_channels_sole(visit_channel(st, channels, k), channels, k + 1, ci);
    } else {
        assert(k > ci);
    }
}

proof fn lemma_group_sources_keeps(
    order: Seq<usize>,
    i: int,
    topology: Map<usize, TopologyEntry>,
    acc: Seq<(usize, TopologyEntry)>,
    s: usize,
)
    requires
        0 <= i,
        topology.contains_key(s),
        exists|q: int| i <= q < order.len() && order[q] == s,
    ensures
        group_sources(order, i, topology, acc).contains((s, topology[s])),
    decreases order.len() - i,
{
    if order[i] == s {
        let next = acc.push((s, topology[s]));
        assert(next[next.len() - 1] == (s, topology[s]));
        lemma_group_sources_grows(order, i + 1, topology.remove(s), next, (s, topology[s]));
    } else {
        let q = choose|q: int| i <= q < order.len() && order[q] == s;
        if topology.contains_key(order[i]) {
            let rest = topology.remove(order[i]);
            assert(rest.contains_key(s) && rest[s] == topology[s]);
            lemma_group_sources_keeps(order, i + 1, rest, acc.push((order[i], topology[order[i]])), s);
        } else {
            lemma_group_sources_keeps(order, i + 1, topology, acc, s);
        }
    }
}

proof fn lemma_group_sources_grows(
    order: Seq<usize>,
    i: int,
    topology: Map<usize, TopologyEntry>,
    acc: Seq<(usize, TopologyEntry)>,
    x: (usize, TopologyEntry),
)
    requires
        acc.contains(x),
    ensures
        group_sources(order, i, topology, acc).contains(x),
    decreases order.len() - i,
{
    if 0 <= i < order.len() {
        if topology.contains_key(order[i]) {
            let next = acc.push((order[i], topology[order[i]]));
            let q = choose|q: int| 0 <= q < acc.len() && acc[q] == x;
            assert(next[q] == x);
            lemma_group_sources_grows(order, i + 1, topology.remove(order[i]), next, x);
        } else {
            lemma_group_sources_grows(order, i + 1, topology, acc, x);
        }
    }
}

proof fn lemma_stage_channels_contains(channels: Seq<ChannelView>, grouped: Seq<(usize, TopologyEntry)>, x: (usize, TopologyEntry))
    requires
        grouped.contains(x),
    ensures
        stage_channels(channels, grouped, x.1.stage as nat).contains(entry_channel(channels, x.1)),
    decreases grouped.len(),
{
    let k = x.1.stage as nat;
    let all = stage_channels(channels, grouped, k);
    if grouped.last() == x {
        assert(all[all.len() - 1] == entry_channel(channels, x.1));
    } else {
        let q = choose|q: int| 0 <= q < grouped.len() && grouped[q] == x;
        assert(grouped.drop_last()[q] == x);
        lemma_stage_channels_contains(channels, grouped.drop_last(), x);
        let before = stage_channels(channels, grouped.drop_last(), k);
        let m = choose|m: int| 0 <= m < before.len() && before[m] == entry_channel(channels, x.1);
        assert(all[m] == before[m]);
    }
}

proof fn lemma_stage_ids_contain(grouped: Seq<(usize, TopologyEntry)>, k: nat, bound: nat)
    requires
        has_stage(grouped, k),
        k < bound,
    ensures
        stage_ids_below(grouped, bound).contains(k),
    decreases bound,
{
    let ids = stage_ids_below(grouped, bound);
    if k == bound - 1 {
        assert(ids[ids.len() - 1] == k);
    } else {
        lemma_stage_ids_contain(grouped, k, (bound - 1) as nat);
        let rest = stage_ids_below(grouped, (bound - 1) as nat);
        let m = choose|m: int| 0 <= m < rest.len() && rest[m] == k;
        assert(ids[m] == rest[m]);
    }
}

/// A channel whose source drives no other channel and is no pipe's implicit source runs,
/// as it is, in the stage numbered 0.
pub proof fn law_compile_keeps_sole_channels(p: PipelineView, dop: nat, ci: int)
    requires
        p.channels.len() <= usize::MAX,
        pipes_fit(p.channels),
        0 <= ci < p.channels.len(),
        sole_source(p.channels, ci),
    ensures
        exists|i: int, m: int| {
            &&& 0 <= i < compile_spec(p, dop).pipelinexes.len()
            &&& compile_spec(p, dop).pipelinexes[i].name == stage_name(p.name, 0)
            &&& 0 <= m < compile_spec(p, dop).pipelinexes[i].channels.len()
            &&& #[trigger] compile_spec(p, dop).pipelinexes[i].channels[m] == p.channels[ci]
        },
{
    let ch = p.channels;
    let s = ch[ci].source;
    lemma_visit_channels_sole(initial_state(), ch, 0, ci);
    let st = visit_channels(initial_state(), ch, 0);
    let q = choose|q: int| 0 <= q < st.order.len() && st.order[q] == s;
    lemma_group_sources_keeps(st.order, 0, st.topology, Seq::empty(), s);
    let grouped = compiled_sources(p);
    let e = explicit_entry(ch, ci);
    lemma_stage_channels_contains(ch, grouped, (s, e));
    let j = choose|j: int| 0 <= j < grouped.len() && grouped[j] == (s, e);
    assert(grouped[j].1.stage == 0);
    assert(has_stage(grouped, 0));
    lemma_stage_ids_contain(grouped, 0, max_stage(grouped) + 1);
    let ids = stage_ids_below(grouped, max_stage(grouped) + 1);
    let i = choose|i: int| 0 <= i < ids.len() && ids[i] == 0;
    let stages = compile_spec(p, dop).pipelinexes;
    assert(stages[i] == stage_view(p, grouped, dop, 0));
    let chans = stage_channels(ch, grouped, 0);
    let m = choose|m: int| 0 <= m < chans.len() && chans[m] == entry_channel(ch, e);
    assert(entry_channel(ch, e) == ch[ci]);
    assert(stages[i].channels[m] == p.channels[ci]);
}

} // verus!

verus! {

/// Every occurrence of a pipe identity in the pipeline describes the same pipe.
pub open spec fn consistent_pipes(channels: Seq<ChannelView>) -> bool {
    forall|c1: int, j1: int, c2: int, j2: int|
        0 <= c1 < channels.len() && 0 <= j1 < channels[c1].pipes.len() && 0 <= c2 < channels.len()
            && 0 <= j2 < channels[c2].pipes.len() && (#[trigger] channels[c1].pipes[j1]).id
            == (#[trigger] channels[c2].pipes[j2]).id ==> channels[c1].pipes[j1] == channels[c2].pipes[j2]
}

/// Different pipes have different implicit sources.
pub open spec fn unique_implicit_sources(channels: Seq<ChannelView>) -> bool {
    forall|c1: int, j1: int, c2: int, j2: int|
        0 <= c1 < channels.len() && 0 <= j1 < channels[c1].pipes.len() && 0 <= c2 < channels.len()
            && 0 <= j2 < channels[c2].pipes.len() && (#[trigger] channels[c1].pipes[j1]).implicit_source is Some
            && channels[c1].pipes[j1].implicit_source == (#[trigger] channels[c2].pipes[j2]).implicit_source
            ==> channels[c1].pipes[j1].id == channels[c2].pipes[j2].id
}

/// Position `j2` of channel `c2` comes before position `index` of channel `ci`, channels
/// taken in order and each from its first pipe.
pub open spec fn occurs_before(channels: Seq<ChannelView>, ci: int, index: int, c2: int, j2: int) -> bool {
    ||| 0 <= c2 < ci && 0 <= j2 < channels[c2].pipes.len()
    ||| c2 == ci && 0 <= j2 < index && j2 < channels[ci].pipes.len()
}

/// The pipe at position `j` of channel `ci` appears there for the first time in the pipeline.
pub open spec fn first_occurrence(channels: Seq<ChannelView>, ci: int, j: int) -> bool {
    forall|c2: int, j2: int| occurs_before(channels, ci, j, c2, j2) ==>
        (#[trigger] channels[c2].pipes[j2]).id != channels[ci].pipes[j].id
}

/// The pipe at position `j` of channel `ci` opens a new stage: it has an implicit source
/// and appears there for the first time.
pub open spec fn opens_stage(channels: Seq<ChannelView>, ci: int, j: int) -> bool {
    channels[ci].pipes[j].implicit_source is Some && first_occurrence(channels, ci, j)
}

/// How many pipes before position `j` of channel `ci` open a new stage: the depth of the
/// stage that feeds position `j`.
pub open spec fn opened_before(channels: Seq<ChannelView>, ci: int, j: int) -> nat
    decreases j,
{
    if j <= 0 {
        0
    } else {
        opened_before(channels, ci, j - 1) + if opens_stage(channels, ci, j - 1) { 1nat } else { 0nat }
    }
}

/// Each implicit-source pipe met so far is recorded with its implicit source, and that source
/// sits, as an implicit source, deeper than the stage that feeds the pipe.
pub open spec fn placed_deep(channels: Seq<ChannelView>, st: CompileState, ci: int, index: int) -> bool {
    forall|c2: int, j2: int| occurs_before(channels, ci, index, c2, j2)
        && (#[trigger] channels[c2].pipes[j2]).implicit_source is Some ==> {
        let pipe = channels[c2].pipes[j2];
        let s = pipe.implicit_source->0;
        &&& st.pipe_sources.contains_key(pipe.id)
        &&& st.pipe_sources[pipe.id] == s
        &&& st.topology.contains_key(s)
        &&& !st.topology[s].explicit
        &&& st.topology[s].stage > opened_before(channels, c2, j2)
    }
}

/// Every recorded pipe was met before, with that implicit source.
pub open spec fn sources_seen(channels: Seq<ChannelView>, st: CompileState, ci: int, index: int) -> bool {
    forall|id: usize| #[trigger] st.pipe_sources.contains_key(id) ==> exists|c2: int, j2: int|
        occurs_before(channels, ci, index, c2, j2) && (#[trigger] channels[c2].pipes[j2]).id == id
            && channels[c2].pipes[j2].implicit_source == Some(st.pipe_sources[id])
}

pub open spec fn keys_ordered(st: CompileState) -> bool {
    forall|k: usize| #[trigger] st.topology.contains_key(k) ==> st.order.contains(k)
}

proof fn lemma_visit_pipes_deep(st: CompileState, channels: Seq<ChannelView>, ci: int, index: int, stage: nat)
    requires
        0 <= ci < channels.len() <= usize::MAX,
        pipes_fit(channels),
        consistent_pipes(channels),
        unique_implicit_sources(channels),
        0 <= index <= channels[ci].pipes.len(),
        1 <= stage <= index + 1,
        stage >= 1 + opened_before(channels, ci, index),
        placed_deep(channels, st, ci, index),
        sources_seen(channels, st, ci, index),
        keys_ordered(st),
    ensures
        placed_deep(channels, visit_pipes(st, channels, ci, index, stage), ci, channels[ci].pipes.len() as int),
        sources_seen(channels, visit_pipes(st, channels, ci, index, stage), ci, channels[ci].pipes.len() as int),
        keys_ordered(visit_pipes(st, channels, ci, index, stage)),
    decreases channels[ci].pipes.len() - index,
{
    let len = channels[ci].pipes.len() as int;
    if index < len {
        let (next, next_stage) = visit_pipe(st, channels, ci, index, stage);
        let pipe = channels[ci].pipes[index];
        assert(channels[ci].pipes.len() < usize::MAX);
        if st.pipe_sources.contains_key(pipe.id) {
            let s = st.pipe_sources[pipe.id];
            let (c3, j3) = choose|c2: int, j2: int|
                occurs_before(channels, ci, index, c2, j2) && (#[trigger] channels[c2].pipes[j2]).id == pipe.id
                    && channels[c2].pipes[j2].implicit_source == Some(s);
            assert(channels[c3].pipes[j3] == pipe);
            assert(pipe.implicit_source == Some(s));
            assert(st.topology.contains_key(s) && !st.topology[s].explicit);
            assert(!first_occurrence(channels, ci, index));
            assert(opened_before(channels, ci, index + 1) == opened_before(channels, ci, index));
            assert forall|c2: int, j2: int| occurs_before(channels, ci, index + 1, c2, j2)
                && (#[trigger] channels[c2].pipes[j2]).implicit_source is Some implies {
                let p2 = channels[c2].pipes[j2];
                let s2 = p2.implicit_source->0;
                &&& next.pipe_sources.contains_key(p2.id)
                &&& next.pipe_sources[p2.id] == s2
                &&& next.topology.contains_key(s2)
                &&& !next.topology[s2].explicit
                &&& next.topology[s2].stage > opened_before(channels, c2, j2)
            } by {
                if !occurs_before(channels, ci, index, c2, j2) {
                    assert(c2 == ci && j2 == index);
                }
            }
            assert forall|id: usize| #[trigger] next.pipe_sources.contains_key(id) implies exists|c2: int, j2: int|
                occurs_before(channels, ci, index + 1, c2, j2) && (#[trigger] channels[c2].pipes[j2]).id == id
                    && channels[c2].pipes[j2].implicit_source == Some(next.pipe_sources[id]) by {
                let (c4, j4) = choose|c2: int, j2: int|
                    occurs_before(channels, ci, index, c2, j2) && (#[trigger] channels[c2].pipes[j2]).id == id
                        && channels[c2].pipes[j2].implicit_source == Some(st.pipe_sources[id]);
                assert(occurs_before(channels, ci, index + 1, c4, j4));
            }
            lemma_visit_pipes_deep(next, channels, ci, index + 1, next_stage);
        } else if let Some(s) = pipe.implicit_source {
            assert forall|c2: int, j2: int| occurs_before(channels, ci, index, c2, j2) implies
                (#[trigger] channels[c2].pipes[j2]).id != pipe.id by {
                if channels[c2].pipes[j2].id == pipe.id {
                    assert(channels[c2].pipes[j2] == pipe);
                }
            }
            assert(first_occurrence(channels, ci, index));
            assert(opened_before(channels, ci, index + 1) == opened_before(channels, ci, index) + 1);
            assert forall|c2: int, j2: int| occurs_before(channels, ci, index + 1, c2, j2)
                && (#[trigger] channels[c2].pipes[j2]).implicit_source is Some implies {
                let p2 = channels[c2].pipes[j2];
                let s2 = p2.implicit_source->0;
                &&& next.pipe_sources.contains_key(p2.id)
                &&& next.pipe_sources[p2.id] == s2
                &&& next.topology.contains_key(s2)
                &&& !next.topology[s2].explicit
                &&& next.topology[s2].stage > opened_before(channels, c2, j2)
            } by {
                if occurs_before(channels, ci, index, c2, j2) {
                    let p2 = channels[c2].pipes[j2];
                    assert(p2.id != pipe.id);
                    if p2.implicit_source == Some(s) {
                        assert(p2.id == pipe.id);
                    }
                } else {
                    assert(c2 == ci && j2 == index);
                }
            }
            assert forall|id: usize| #[trigger] next.pipe_sources.contains_key(id) implies exists|c2: int, j2: int|
                occurs_before(channels, ci, index + 1, c2, j2) && (#[trigger] channels[c2].pipes[j2]).id == id
                    && channels[c2].pipes[j2].implicit_source == Some(next.pipe_sources[id]) by {
                if id == pipe.id {
                    assert(occurs_before(channels, ci, index + 1, ci, index));
                    assert(channels[ci].pipes[index].id == id);
                } else {
                    let (c4, j4) = choose|c2: int, j2: int|
                        occurs_before(channels, ci, index, c2, j2) && (#[trigger] channels[c2].pipes[j2]).id == id
                            && channels[c2].pipes[j2].implicit_source == Some(st.pipe_sources[id]);
                    assert(occurs_before(channels, ci, index + 1, c4, j4));
                }
            }
            assert forall|k: usize| #[trigger] next.topology.contains_key(k) implies next.order.contains(k) by {
                if k == s {
                    assert(next.order[next.order.len() - 1] == s);
                } else {
                    assert(st.order.contains(k));
                    let q = choose|q: int| 0 <= q < st.order.len() && st.order[q] == k;
                    assert(next.order[q] == k);
                }
            }
            lemma_visit_pipes_deep(next, channels, ci, index + 1, next_stage);
        } else {
            assert(!opens_stage(channels, ci, index));
            assert(opened_before(channels, ci, index + 1) == opened_before(channels, ci, index));
            assert forall|c2: int, j2: int| occurs_before(channels, ci, index + 1, c2, j2)
                && (#[trigger] channels[c2].pipes[j2]).implicit_source is Some implies occurs_before(channels, ci, index, c2, j2) by {
                if !occurs_before(channels, ci, index, c2, j2) {
                    assert(c2 == ci && j2 == index);
                }
            }
            assert forall|id: usize| #[trigger] next.pipe_sources.contains_key(id) implies exists|c2: int, j2: int|
                occurs_before(channels, ci, index + 1, c2, j2) && (#[trigger] channels[c2].pipes[j2]).id == id
                    && channels[c2].pipes[j2].implicit_source == Some(next.pipe_sources[id]) by {
                let (c4, j4) = choose|c2: int, j2: int|
                    occurs_before(channels, ci, index, c2, j2) && (#[trigger] channels[c2].pipes[j2]).id == id
                        && channels[c2].pipes[j2].implicit_source == Some(st.pipe_sources[id]);
                assert(occurs_before(channels, ci, index + 1, c4, j4));
            }
            lemma_visit_pipes_deep(next, channels, ci, index + 1, next_stage);
        }
    }
}

proof fn lemma_visit_channels_deep(st: CompileState, channels: Seq<ChannelView>, k: int)
    requires
        0 <= k <= channels.len() <= usize::MAX,
        pipes_fit(channels),
        consistent_pipes(channels),
        unique_implicit_sources(channels),
        placed_deep(channels, st, k, 0),
        sources_seen(channels, st, k, 0),
        keys_ordered(st),
    ensures
        placed_deep(channels, visit_channels(st, channels, k), channels.len() as int, 0),
        keys_ordered(visit_channels(st, channels, k)),
    decreases channels.len() - k,
{
    if k < channels.len() {
        let src = channels[k].source;
        let topology = if st.topology.contains_key(src) {
            st.topology
        } else {
            st.topology.insert(
                src,
                TopologyEntry { stage: 0, source: src, channel_index: k as usize, start: 0, explicit: true },
            )
        };
        let entered = CompileState { topology, order: st.order.push(src), ..st };
        assert forall|q: usize| #[trigger] entered.topology.contains_key(q) implies entered.order.contains(q) by {
            if q == src {
                assert(entered.order[entered.order.len() - 1] == src);
            } else {
                let m = choose|m: int| 0 <= m < st.order.len() && st.order[m] == q;
                assert(entered.order[m] == q);
            }
        }
        assert forall|c2: int, j2: int| occurs_before(channels, k, 0, c2, j2)
            && (#[trigger] channels[c2].pipes[j2]).implicit_source is Some implies {
            let pipe = channels[c2].pipes[j2];
            let s = pipe.implicit_source->0;
            &&& entered.pipe_sources.contains_key(pipe.id)
            &&& entered.pipe_sources[pipe.id] == s
            &&& entered.topology.contains_key(s)
            &&& !entered.topology[s].explicit
            &&& entered.topology[s].stage > opened_before(channels, c2, j2)
        } by {
            let s = channels[c2].pipes[j2].implicit_source->0;
            assert(st.topology.contains_key(s));
        }
        lemma_visit_pipes_deep(entered, channels, k, 0, 1);
        let after = visit_channel(st, channels, k);
        let len = channels[k].pipes.len() as int;
        assert forall|c2: int, j2: int| occurs_before(channels, k + 1, 0, c2, j2)
            && (#[trigger] channels[c2].pipes[j2]).implicit_source is Some implies {
            let pipe = channels[c2].pipes[j2];
            let s = pipe.implicit_source->0;
            &&& after.pipe_sources.contains_key(pipe.id)
            &&& after.pipe_sources[pipe.id] == s
            &&& after.topology.contains_key(s)
            &&& !after.topology[s].explicit
            &&& after.topology[s].stage > opened_before(channels, c2, j2)
        } by {
            assert(occurs_before(channels, k, len, c2, j2));
        }
        assert forall|id: usize| #[trigger] after.pipe_sources.contains_key(id) implies exists|c2: int, j2: int|
            occurs_before(channels, k + 1, 0, c2, j2) && (#[trigger] channels[c2].pipes[j2]).id == id
                && channels[c2].pipes[j2].implicit_source == Some(after.pipe_sources[id]) by {
            let (c4, j4) = choose|c2: int, j2: int|
                occurs_before(channels, k, len, c2, j2) && (#[trigger] channels[c2].pipes[j2]).id == id
                    && channels[c2].pipes[j2].implicit_source == Some(after.pipe_sources[id]);
            assert(occurs_before(channels, k + 1, 0, c4, j4));
        }
        lemma_visit_channels_deep(after, channels, k + 1);
    }
}

proof fn lemma_stage_implicit_contains(grouped: Seq<(usize, TopologyEntry)>, x: (usize, TopologyEntry))
    requires
        grouped.contains(x),
        !x.1.explicit,
    ensures
        stage_implicit_sources(grouped, x.1.stage as nat).contains(x.0),
        x.1.stage <= max_stage(grouped),
    decreases grouped.len(),
{
    let k = x.1.stage as nat;
    let all = stage_implicit_sources(grouped, k);
    if grouped.last() == x {
        assert(all[all.len() - 1] == x.0);
    } else {
        let q = choose|q: int| 0 <= q < grouped.len() && grouped[q] == x;
        assert(grouped.drop_last()[q] == x);
        lemma_stage_implicit_contains(grouped.drop_last(), x);
        let before = stage_implicit_sources(grouped.drop_last(), k);
        let m = choose|m: int| 0 <= m < before.len() && before[m] == x.0;
        assert(all[m] == before[m]);
    }
}

/// An implicit source runs in a stage after every stage that feeds its pipe: for the pipe at
/// position `j` of channel `ci`, the stage of its implicit source is deeper than the number
/// of stages that the pipes before it in that channel open (each pipe with an implicit source,
/// at its first appearance in the pipeline). This holds where each pipe identity describes one
/// pipe and different pipes have different implicit sources.
pub proof fn law_implicit_source_after_feeding_stages(p: PipelineView, dop: nat, ci: int, j: int)
    requires
        p.channels.len() <= usize::MAX,
        pipes_fit(p.channels),
        consistent_pipes(p.channels),
        unique_implicit_sources(p.channels),
        0 <= ci < p.channels.len(),
        0 <= j < p.channels[ci].pipes.len(),
        p.channels[ci].pipes[j].implicit_source is Some,
    ensures
        exists|i: int, n: nat| #![trigger compile_spec(p, dop).pipelinexes[i], stage_name(p.name, n)] {
            &&& 0 <= i < compile_spec(p, dop).pipelinexes.len()
            &&& compile_spec(p, dop).pipelinexes[i].name == stage_name(p.name, n)
            &&& compile_spec(p, dop).pipelinexes[i].implicit_sources.contains(
                p.channels[ci].pipes[j].implicit_source->0,
            )
            &&& n > opened_before(p.channels, ci, j)
        },
{
    let ch = p.channels;
    let s = ch[ci].pipes[j].implicit_source->0;
    lemma_visit_channels_deep(initial_state(), ch, 0);
    let st = visit_channels(initial_state(), ch, 0);
    assert(occurs_before(ch, ch.len() as int, 0, ci, j));
    let e = st.topology[s];
    assert(st.topology.contains_key(s) && !e.explicit && e.stage > opened_before(ch, ci, j));
    assert(st.order.contains(s));
    lemma_group_sources_keeps(st.order, 0, st.topology, Seq::empty(), s);
    let grouped = compiled_sources(p);
    lemma_stage_implicit_contains(grouped, (s, e));
    let n = e.stage as nat;
    let w = choose|w: int| 0 <= w < grouped.len() && grouped[w] == (s, e);
    assert(grouped[w].1.stage == n);
    assert(has_stage(grouped, n));
    lemma_stage_ids_contain(grouped, n, max_stage(grouped) + 1);
    let ids = stage_ids_below(grouped, max_stage(grouped) + 1);
    let i = choose|i: int| 0 <= i < ids.len() && ids[i] == n;
    let stages = compile_spec(p, dop).pipelinexes;
    assert(stages[i] == stage_view(p, grouped, dop, n));
    assert(stages[i].name == stage_name(p.name, n));
    assert(stages[i].implicit_sources.contains(s));
}

} // verus!
