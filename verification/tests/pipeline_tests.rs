use std::collections::{HashMap, VecDeque};
use std::sync::atomic::{AtomicBool, Ordering};
use std::sync::{Arc, Mutex};

use broken_pipeline::channel::ProtocolViolation;
use broken_pipeline::{
    compile, ExecContext, OpOutput, OperatorCall, OpOutputKind, PipeExec, PipeInfo, Pipeline, PipelineChannel,
    Resumer, StepError, TaskStatus,
};

#[derive(Clone, Default)]
struct TestResumer(Arc<AtomicBool>);

impl Resumer for TestResumer {
    // The trait's specification hooks: they only name answers for the verifier and are
    // never called at run time.
    fn reports_resumed(&self, _resumed: bool) -> bool {
        true
    }

    fn resume(&self) {
        self.0.store(true, Ordering::SeqCst);
    }

    fn is_resumed(&self) -> bool {
        self.0.load(Ordering::SeqCst)
    }
}

struct RecordedAwaiter {
    resumers: Vec<TestResumer>,
}

#[derive(Clone, Debug, Eq, PartialEq)]
struct Trace {
    op: String,
    method: &'static str,
    input: Option<Option<i32>>,
    output: String,
}

fn trace(op: &str, method: &'static str, input: Option<Option<i32>>, output: &str) -> Trace {
    Trace {
        op: op.to_string(),
        method,
        input,
        output: output.to_string(),
    }
}

#[derive(Clone)]
enum ScriptOutput {
    PipeSinkNeedsMore,
    PipeEven(i32),
    SourcePipeHasMore(i32),
    PipeYield,
    PipeYieldBack,
    Finished(Option<i32>),
}

impl ScriptOutput {
    fn label(&self) -> &'static str {
        match self {
            Self::PipeSinkNeedsMore => "PIPE_SINK_NEEDS_MORE",
            Self::PipeEven(_) => "PIPE_EVEN",
            Self::SourcePipeHasMore(_) => "SOURCE_PIPE_HAS_MORE",
            Self::PipeYield => "PIPE_YIELD",
            Self::PipeYieldBack => "PIPE_YIELD_BACK",
            Self::Finished(_) => "FINISHED",
        }
    }

    fn into_output(self) -> OpOutput<i32, TestResumer> {
        match self {
            Self::PipeSinkNeedsMore => OpOutput::PipeSinkNeedsMore,
            Self::PipeEven(batch) => OpOutput::PipeEven(batch),
            Self::SourcePipeHasMore(batch) => OpOutput::SourcePipeHasMore(batch),
            Self::PipeYield => OpOutput::PipeYield,
            Self::PipeYieldBack => OpOutput::PipeYieldBack,
            Self::Finished(batch) => OpOutput::Finished(batch),
        }
    }
}

#[derive(Clone)]
enum Step {
    Output {
        expected_input: Option<Option<i32>>,
        output: ScriptOutput,
    },
    Blocked {
        expected_input: Option<Option<i32>>,
    },
    Error {
        message: &'static str,
    },
}

impl Step {
    fn output(output: ScriptOutput) -> Self {
        Self::Output {
            expected_input: None,
            output,
        }
    }

    fn blocked() -> Self {
        Self::Blocked {
            expected_input: None,
        }
    }

    fn error(message: &'static str) -> Self {
        Self::Error { message }
    }

    fn with_expected_input(self, input: Option<i32>) -> Self {
        match self {
            Self::Output { output, .. } => Self::Output {
                expected_input: Some(input),
                output,
            },
            Self::Blocked { .. } => Self::Blocked {
                expected_input: Some(input),
            },
            other => other,
        }
    }

    fn with_expected_null_input(self) -> Self {
        self.with_expected_input(None)
    }
}

/// Scripted operators, by identity: each call of an operator method on a lane takes the
/// next scripted step and records a trace.
#[derive(Default)]
struct Script {
    names: HashMap<usize, String>,
    steps: Mutex<HashMap<(usize, &'static str), VecDeque<Step>>>,
    traces: Mutex<Vec<Trace>>,
}

impl Script {
    fn op(&mut self, id: usize, name: &str, method: &'static str, steps: Vec<Step>) {
        self.names.insert(id, name.to_string());
        self.steps
            .lock()
            .unwrap()
            .insert((id, method), steps.into_iter().collect());
    }

    fn traces(&self) -> Vec<Trace> {
        self.traces.lock().unwrap().clone()
    }

    fn run(
        &self,
        id: usize,
        method: &'static str,
        input: Option<Option<i32>>,
    ) -> Result<OpOutput<i32, TestResumer>, String> {
        let step = self
            .steps
            .lock()
            .unwrap()
            .get_mut(&(id, method))
            .and_then(VecDeque::pop_front)
            .unwrap_or_else(|| panic!("missing scripted step for {id}::{method}"));
        let name = self.names[&id].clone();
        let mut traces = self.traces.lock().unwrap();
        match step {
            Step::Output {
                expected_input,
                output,
            } => {
                if let Some(expected) = expected_input {
                    assert_eq!(input, Some(expected), "unexpected {name}::{method} input");
                }
                traces.push(trace(&name, method, input, output.label()));
                Ok(output.into_output())
            }
            Step::Blocked { expected_input } => {
                if let Some(expected) = expected_input {
                    assert_eq!(input, Some(expected), "unexpected {name}::{method} input");
                }
                traces.push(trace(&name, method, input, "BLOCKED"));
                Ok(OpOutput::Blocked(TestResumer::default()))
            }
            Step::Error { message } => {
                traces.push(trace(&name, method, input, &format!("ERROR({message})")));
                Err(message.to_string())
            }
        }
    }
}

impl ExecContext<i32, TestResumer, RecordedAwaiter, String> for Script {
    // The trait's specification hooks: they only name answers for the verifier and are
    // never called at run time.
    fn answers(&self, _call: OperatorCall<i32>, _thread_id: usize, _r: Result<OpOutput<i32, TestResumer>, String>) -> bool {
        true
    }

    fn makes_awaiter(&self, _resumers: Vec<TestResumer>, _r: Result<RecordedAwaiter, String>) -> bool {
        true
    }

    fn source(&self, source: usize, _thread_id: usize) -> Result<OpOutput<i32, TestResumer>, String> {
        self.run(source, "Source", None)
    }

    fn pipe(
        &self,
        pipe: usize,
        _thread_id: usize,
        input: Option<i32>,
    ) -> Result<OpOutput<i32, TestResumer>, String> {
        self.run(pipe, "Pipe", Some(input))
    }

    fn drain(&self, pipe: usize, _thread_id: usize) -> Result<OpOutput<i32, TestResumer>, String> {
        self.run(pipe, "Drain", None)
    }

    fn sink(
        &self,
        sink: usize,
        _thread_id: usize,
        input: Option<i32>,
    ) -> Result<OpOutput<i32, TestResumer>, String> {
        self.run(sink, "Sink", Some(input))
    }

    fn make_awaiter(&self, resumers: Vec<TestResumer>) -> Result<RecordedAwaiter, String> {
        Ok(RecordedAwaiter { resumers })
    }
}

const SOURCE: usize = 1;
const SOURCE2: usize = 2;
const PIPE: usize = 10;
const SINK: usize = 100;

fn runtime(pipeline: &Pipeline) -> PipeExec<TestResumer> {
    compile(pipeline, 1).pipelinexes()[0].pipe_exec()
}

#[test]
fn compile_empty_pipeline_keeps_layout_non_invasive() {
    let pipeline = Pipeline::new("EmptyPipeline", vec![], SINK);
    let exec = compile(&pipeline, 1);

    assert_eq!(exec.name(), "EmptyPipeline");
    assert_eq!(exec.dop(), 1);
    assert!(exec.pipelinexes().is_empty());
}

#[test]
fn compile_single_channel_pipeline_preserves_original_channel() {
    let pipeline = Pipeline::new(
        "SingleChannelPipeline",
        vec![PipelineChannel::new(SOURCE, vec![PipeInfo::new(PIPE)])],
        SINK,
    );

    let exec = compile(&pipeline, 2);
    let stage = &exec.pipelinexes()[0];

    assert_eq!(exec.pipelinexes().len(), 1);
    assert_eq!(stage.dop(), 2);
    assert_eq!(stage.channels().len(), 1);
    assert_eq!(stage.num_implicit_sources(), 0);
    assert_eq!(stage.channels()[0].source(), SOURCE);
    assert_eq!(stage.channels()[0].pipes()[0].id, PIPE);
    assert_eq!(pipeline.sink(), SINK);
}

#[test]
fn compile_triple_stage_pipeline_matches_cpp_stage_splitting() {
    let (source1, source2) = (1, 2);
    let (implicit1, implicit2, implicit3) = (11, 12, 13);
    let pipe1 = PipeInfo {
        id: 21,
        has_drain: false,
        implicit_source: Some(implicit1),
    };
    let pipe2 = PipeInfo {
        id: 22,
        has_drain: false,
        implicit_source: Some(implicit2),
    };
    let pipe3 = PipeInfo {
        id: 23,
        has_drain: false,
        implicit_source: Some(implicit3),
    };

    let pipeline = Pipeline::new(
        "TriplePhysicalPipeline",
        vec![
            PipelineChannel::new(source1, vec![pipe1, pipe3]),
            PipelineChannel::new(source2, vec![pipe2, pipe3]),
        ],
        SINK,
    );

    let exec = compile(&pipeline, 1);

    assert_eq!(exec.pipelinexes().len(), 3);

    let stage0 = &exec.pipelinexes()[0];
    assert_eq!(stage0.channels().len(), 2);
    assert_eq!(stage0.num_implicit_sources(), 0);
    assert_eq!(stage0.channels()[0].source(), source1);
    assert_eq!(stage0.channels()[1].source(), source2);

    let stage1 = &exec.pipelinexes()[1];
    assert_eq!(stage1.channels().len(), 2);
    assert_eq!(stage1.num_implicit_sources(), 2);
    assert_eq!(stage1.channels()[0].source(), implicit1);
    assert_eq!(stage1.channels()[1].source(), implicit2);
    assert_eq!(stage1.channels()[0].pipes().len(), 1);
    assert_eq!(stage1.channels()[1].pipes().len(), 1);
    assert_eq!(stage1.channels()[0].pipes()[0].id, pipe3.id);
    assert_eq!(stage1.channels()[1].pipes()[0].id, pipe3.id);

    let stage2 = &exec.pipelinexes()[2];
    assert_eq!(stage2.channels().len(), 1);
    assert_eq!(stage2.num_implicit_sources(), 1);
    assert_eq!(stage2.channels()[0].source(), implicit3);
    assert!(stage2.channels()[0].pipes().is_empty());
}

#[test]
fn compiled_stages_are_named_by_stage_number() {
    let pipe = PipeInfo {
        id: 21,
        has_drain: false,
        implicit_source: Some(11),
    };
    let pipeline = Pipeline::new("P", vec![PipelineChannel::new(1, vec![pipe])], SINK);
    let exec = compile(&pipeline, 3);
    assert_eq!(exec.pipelinexes().len(), 2);
    assert_eq!(exec.pipelinexes()[0].name(), "pipelinexe0(P)");
    assert_eq!(exec.pipelinexes()[1].name(), "pipelinexe1(P)");
    assert_eq!(exec.pipelinexes()[1].implicit_sources(), &[11]);
    assert_eq!(exec.pipelinexes()[1].sink(), SINK);
    assert_eq!(exec.pipelinexes()[1].dop(), 3);
}

#[test]
fn implicit_source_stages_run_the_tails_of_their_channels() {
    let feed = PipeInfo { id: 21, has_drain: false, implicit_source: Some(11) };
    let after1 = PipeInfo::new(22);
    let after2 = PipeInfo::new(23);
    let pipeline = Pipeline::new(
        "Tails",
        vec![PipelineChannel::with_input_id(5, 1, vec![after1, feed, after1, after2])],
        SINK,
    );
    let exec = compile(&pipeline, 1);
    assert_eq!(exec.pipelinexes().len(), 2);
    let stage0 = &exec.pipelinexes()[0];
    assert_eq!(stage0.channels()[0].pipes(), &[after1, feed, after1, after2]);
    assert_eq!(stage0.channels()[0].input_id(), Some(5));
    assert!(stage0.implicit_sources().is_empty());
    let stage1 = &exec.pipelinexes()[1];
    assert_eq!(stage1.implicit_sources(), &[11]);
    assert_eq!(stage1.channels()[0].source(), 11);
    assert_eq!(stage1.channels()[0].input_id(), None);
    assert_eq!(stage1.channels()[0].pipes(), &[after1, after2]);
}

#[test]
fn channels_with_their_own_sources_stay_whole_in_stage_zero() {
    let feed = PipeInfo { id: 21, has_drain: false, implicit_source: Some(11) };
    let plain = PipeInfo::new(22);
    let whole = PipelineChannel::new(2, vec![plain]);
    let pipeline = Pipeline::new(
        "Sole",
        vec![PipelineChannel::new(1, vec![feed, plain]), PipelineChannel::new(2, vec![plain])],
        SINK,
    );
    let exec = compile(&pipeline, 1);
    let stage0 = &exec.pipelinexes()[0];
    assert_eq!(stage0.name(), "pipelinexe0(Sole)");
    assert_eq!(stage0.channels()[1].source(), whole.source());
    assert_eq!(stage0.channels()[1].pipes(), whole.pipes());
    assert_eq!(stage0.channels()[1].input_id(), None);
}

#[test]
fn compile_keeps_input_ids_of_explicit_channels() {
    let pipeline = Pipeline::new(
        "Inputs",
        vec![
            PipelineChannel::with_input_id(7, 1, vec![]),
            PipelineChannel::new(2, vec![]),
        ],
        SINK,
    );
    let exec = compile(&pipeline, 1);
    let stage = &exec.pipelinexes()[0];
    assert_eq!(stage.channels()[0].input_id(), Some(7));
    assert_eq!(stage.channels()[1].input_id(), None);
}

#[test]
fn empty_source_finishes_without_calling_sink() {
    let mut script = Script::default();
    script.op(SOURCE, "Source", "Source", vec![Step::output(ScriptOutput::Finished(None))]);
    script.op(SINK, "Sink", "Sink", vec![]);
    let pipeline = Pipeline::new("EmptySource", vec![PipelineChannel::new(SOURCE, vec![])], SINK);

    let mut runtime = runtime(&pipeline);
    let status = runtime.step(&script, 0).ok().unwrap();

    assert!(status.is_finished());
    assert_eq!(
        script.traces(),
        vec![trace("Source", "Source", None, "FINISHED")]
    );
}

#[test]
fn one_pass_with_pipe_matches_source_pipe_sink_flow() {
    let mut script = Script::default();
    script.op(
        SOURCE,
        "Source",
        "Source",
        vec![
            Step::output(ScriptOutput::SourcePipeHasMore(10)),
            Step::output(ScriptOutput::Finished(None)),
        ],
    );
    script.op(
        PIPE,
        "Pipe",
        "Pipe",
        vec![Step::output(ScriptOutput::PipeEven(20)).with_expected_input(Some(10))],
    );
    script.op(
        SINK,
        "Sink",
        "Sink",
        vec![Step::output(ScriptOutput::PipeSinkNeedsMore).with_expected_input(Some(20))],
    );
    let pipeline = Pipeline::new(
        "OnePass",
        vec![PipelineChannel::new(SOURCE, vec![PipeInfo::new(PIPE)])],
        SINK,
    );
    let mut runtime = runtime(&pipeline);

    assert!(runtime.step(&script, 0).ok().unwrap().is_continue());
    assert!(runtime.step(&script, 0).ok().unwrap().is_finished());
    assert_eq!(
        script.traces(),
        vec![
            trace("Source", "Source", None, "SOURCE_PIPE_HAS_MORE"),
            trace("Pipe", "Pipe", Some(Some(10)), "PIPE_EVEN"),
            trace("Sink", "Sink", Some(Some(20)), "PIPE_SINK_NEEDS_MORE"),
            trace("Source", "Source", None, "FINISHED"),
        ]
    );
}

#[test]
fn pipe_needs_more_reenters_source_not_pipe() {
    let mut script = Script::default();
    script.op(
        SOURCE,
        "Source",
        "Source",
        vec![
            Step::output(ScriptOutput::SourcePipeHasMore(1)),
            Step::output(ScriptOutput::SourcePipeHasMore(2)),
            Step::output(ScriptOutput::Finished(None)),
        ],
    );
    script.op(
        PIPE,
        "Pipe",
        "Pipe",
        vec![
            Step::output(ScriptOutput::PipeSinkNeedsMore).with_expected_input(Some(1)),
            Step::output(ScriptOutput::PipeSinkNeedsMore).with_expected_input(Some(2)),
        ],
    );
    script.op(SINK, "Sink", "Sink", vec![]);
    let pipeline = Pipeline::new(
        "PipeNeedsMore",
        vec![PipelineChannel::new(SOURCE, vec![PipeInfo::new(PIPE)])],
        SINK,
    );
    let mut runtime = runtime(&pipeline);

    assert!(runtime.step(&script, 0).ok().unwrap().is_continue());
    assert!(runtime.step(&script, 0).ok().unwrap().is_continue());
    assert!(runtime.step(&script, 0).ok().unwrap().is_finished());
    assert_eq!(
        script.traces(),
        vec![
            trace("Source", "Source", None, "SOURCE_PIPE_HAS_MORE"),
            trace("Pipe", "Pipe", Some(Some(1)), "PIPE_SINK_NEEDS_MORE"),
            trace("Source", "Source", None, "SOURCE_PIPE_HAS_MORE"),
            trace("Pipe", "Pipe", Some(Some(2)), "PIPE_SINK_NEEDS_MORE"),
            trace("Source", "Source", None, "FINISHED"),
        ]
    );
}

#[test]
fn pipe_has_more_reenters_pipe_before_source() {
    let mut script = Script::default();
    script.op(
        SOURCE,
        "Source",
        "Source",
        vec![
            Step::output(ScriptOutput::SourcePipeHasMore(10)),
            Step::output(ScriptOutput::Finished(None)),
        ],
    );
    script.op(
        PIPE,
        "Pipe",
        "Pipe",
        vec![
            Step::output(ScriptOutput::SourcePipeHasMore(20)).with_expected_input(Some(10)),
            Step::output(ScriptOutput::PipeSinkNeedsMore).with_expected_null_input(),
        ],
    );
    script.op(
        SINK,
        "Sink",
        "Sink",
        vec![Step::output(ScriptOutput::PipeSinkNeedsMore).with_expected_input(Some(20))],
    );
    let pipeline = Pipeline::new(
        "PipeHasMore",
        vec![PipelineChannel::new(SOURCE, vec![PipeInfo::new(PIPE)])],
        SINK,
    );
    let mut runtime = runtime(&pipeline);

    assert!(runtime.step(&script, 0).ok().unwrap().is_continue());
    assert!(runtime.step(&script, 0).ok().unwrap().is_continue());
    assert!(runtime.step(&script, 0).ok().unwrap().is_finished());
    assert_eq!(
        script.traces(),
        vec![
            trace("Source", "Source", None, "SOURCE_PIPE_HAS_MORE"),
            trace("Pipe", "Pipe", Some(Some(10)), "SOURCE_PIPE_HAS_MORE"),
            trace("Sink", "Sink", Some(Some(20)), "PIPE_SINK_NEEDS_MORE"),
            trace("Pipe", "Pipe", Some(None), "PIPE_SINK_NEEDS_MORE"),
            trace("Source", "Source", None, "FINISHED"),
        ]
    );
}

#[test]
fn pipe_yield_handshake_maps_to_task_yield_then_continue() {
    let mut script = Script::default();
    script.op(
        SOURCE,
        "Source",
        "Source",
        vec![
            Step::output(ScriptOutput::SourcePipeHasMore(1)),
            Step::output(ScriptOutput::Finished(None)),
        ],
    );
    script.op(
        PIPE,
        "Pipe",
        "Pipe",
        vec![
            Step::output(ScriptOutput::PipeYield).with_expected_input(Some(1)),
            Step::output(ScriptOutput::PipeYieldBack).with_expected_null_input(),
            Step::output(ScriptOutput::PipeSinkNeedsMore).with_expected_null_input(),
        ],
    );
    script.op(SINK, "Sink", "Sink", vec![]);
    let pipeline = Pipeline::new(
        "PipeYield",
        vec![PipelineChannel::new(SOURCE, vec![PipeInfo::new(PIPE)])],
        SINK,
    );
    let mut runtime = runtime(&pipeline);

    assert!(runtime.step(&script, 0).ok().unwrap().is_yield());
    assert!(runtime.step(&script, 0).ok().unwrap().is_continue());
    assert!(runtime.step(&script, 0).ok().unwrap().is_continue());
    assert!(runtime.step(&script, 0).ok().unwrap().is_finished());
    assert_eq!(
        script.traces(),
        vec![
            trace("Source", "Source", None, "SOURCE_PIPE_HAS_MORE"),
            trace("Pipe", "Pipe", Some(Some(1)), "PIPE_YIELD"),
            trace("Pipe", "Pipe", Some(None), "PIPE_YIELD_BACK"),
            trace("Pipe", "Pipe", Some(None), "PIPE_SINK_NEEDS_MORE"),
            trace("Source", "Source", None, "FINISHED"),
        ]
    );
}

#[test]
fn pipe_blocked_reenters_with_null_input_after_resume() {
    let mut script = Script::default();
    script.op(
        SOURCE,
        "Source",
        "Source",
        vec![
            Step::output(ScriptOutput::SourcePipeHasMore(1)),
            Step::output(ScriptOutput::Finished(None)),
        ],
    );
    script.op(
        PIPE,
        "Pipe",
        "Pipe",
        vec![
            Step::blocked().with_expected_input(Some(1)),
            Step::output(ScriptOutput::PipeSinkNeedsMore).with_expected_null_input(),
        ],
    );
    script.op(SINK, "Sink", "Sink", vec![]);
    let pipeline = Pipeline::new(
        "PipeBlocked",
        vec![PipelineChannel::new(SOURCE, vec![PipeInfo::new(PIPE)])],
        SINK,
    );
    let mut runtime = runtime(&pipeline);

    let blocked = runtime.step(&script, 0).ok().unwrap();
    let resumers = blocked
        .awaiter()
        .expect("missing blocked awaiter")
        .resumers
        .clone();
    assert!(blocked.is_blocked());
    assert_eq!(resumers.len(), 1);
    resumers[0].resume();

    assert!(runtime.step(&script, 0).ok().unwrap().is_continue());
    assert!(runtime.step(&script, 0).ok().unwrap().is_finished());
    assert_eq!(
        script.traces(),
        vec![
            trace("Source", "Source", None, "SOURCE_PIPE_HAS_MORE"),
            trace("Pipe", "Pipe", Some(Some(1)), "BLOCKED"),
            trace("Pipe", "Pipe", Some(None), "PIPE_SINK_NEEDS_MORE"),
            trace("Source", "Source", None, "FINISHED"),
        ]
    );
}

#[test]
fn sink_backpressure_reenters_with_null_input_after_resume() {
    let mut script = Script::default();
    script.op(
        SOURCE,
        "Source",
        "Source",
        vec![
            Step::output(ScriptOutput::SourcePipeHasMore(1)),
            Step::output(ScriptOutput::Finished(None)),
        ],
    );
    script.op(
        SINK,
        "Sink",
        "Sink",
        vec![
            Step::blocked().with_expected_input(Some(1)),
            Step::output(ScriptOutput::PipeSinkNeedsMore).with_expected_null_input(),
        ],
    );
    let pipeline = Pipeline::new("SinkBlocked", vec![PipelineChannel::new(SOURCE, vec![])], SINK);
    let mut runtime = runtime(&pipeline);

    let blocked = runtime.step(&script, 0).ok().unwrap();
    let resumers = blocked
        .awaiter()
        .expect("missing blocked awaiter")
        .resumers
        .clone();
    assert!(blocked.is_blocked());
    assert_eq!(resumers.len(), 1);
    resumers[0].resume();

    assert!(runtime.step(&script, 0).ok().unwrap().is_continue());
    assert!(runtime.step(&script, 0).ok().unwrap().is_finished());
    assert_eq!(
        script.traces(),
        vec![
            trace("Source", "Source", None, "SOURCE_PIPE_HAS_MORE"),
            trace("Sink", "Sink", Some(Some(1)), "BLOCKED"),
            trace("Sink", "Sink", Some(None), "PIPE_SINK_NEEDS_MORE"),
            trace("Source", "Source", None, "FINISHED"),
        ]
    );
}

#[test]
fn drain_can_emit_tail_output_after_source_finishes() {
    let mut script = Script::default();
    script.op(SOURCE, "Source", "Source", vec![Step::output(ScriptOutput::Finished(None))]);
    script.op(PIPE, "Pipe", "Pipe", vec![]);
    script.op(
        PIPE,
        "Pipe",
        "Drain",
        vec![
            Step::output(ScriptOutput::SourcePipeHasMore(7)),
            Step::output(ScriptOutput::Finished(None)),
        ],
    );
    script.op(
        SINK,
        "Sink",
        "Sink",
        vec![Step::output(ScriptOutput::PipeSinkNeedsMore).with_expected_input(Some(7))],
    );
    let draining_pipe = PipeInfo {
        id: PIPE,
        has_drain: true,
        implicit_source: None,
    };
    let pipeline = Pipeline::new(
        "Drain",
        vec![PipelineChannel::new(SOURCE, vec![draining_pipe])],
        SINK,
    );
    let mut runtime = runtime(&pipeline);

    assert!(runtime.step(&script, 0).ok().unwrap().is_continue());
    assert!(runtime.step(&script, 0).ok().unwrap().is_finished());
    assert_eq!(
        script.traces(),
        vec![
            trace("Source", "Source", None, "FINISHED"),
            trace("Pipe", "Drain", None, "SOURCE_PIPE_HAS_MORE"),
            trace("Sink", "Sink", Some(Some(7)), "PIPE_SINK_NEEDS_MORE"),
            trace("Pipe", "Drain", None, "FINISHED"),
        ]
    );
}

#[test]
fn all_blocked_channels_aggregate_resumers_into_task_blocked() {
    let mut script = Script::default();
    script.op(SOURCE, "Source1", "Source", vec![Step::blocked()]);
    script.op(SOURCE2, "Source2", "Source", vec![Step::blocked()]);
    script.op(SINK, "Sink", "Sink", vec![]);
    let pipeline = Pipeline::new(
        "AllBlocked",
        vec![
            PipelineChannel::new(SOURCE, vec![]),
            PipelineChannel::new(SOURCE2, vec![]),
        ],
        SINK,
    );
    let mut runtime = runtime(&pipeline);
    let blocked = runtime.step(&script, 0).ok().unwrap();

    assert!(blocked.is_blocked());
    assert_eq!(
        blocked
            .awaiter()
            .expect("missing blocked awaiter")
            .resumers
            .len(),
        2
    );
    assert_eq!(
        script.traces(),
        vec![
            trace("Source1", "Source", None, "BLOCKED"),
            trace("Source2", "Source", None, "BLOCKED"),
        ]
    );
}

#[test]
fn error_cancels_subsequent_calls() {
    let mut script = Script::default();
    script.op(SOURCE, "Source", "Source", vec![Step::error("boom")]);
    script.op(SINK, "Sink", "Sink", vec![]);
    let pipeline = Pipeline::new("Error", vec![PipelineChannel::new(SOURCE, vec![])], SINK);
    let mut runtime = runtime(&pipeline);

    match runtime.step(&script, 0) {
        Err(StepError::Operator(err)) => assert_eq!(err, "boom"),
        _ => panic!("expected the operator error"),
    }
    assert!(runtime.step(&script, 0).ok().unwrap().is_cancelled());
    assert_eq!(
        script.traces(),
        vec![trace("Source", "Source", None, "ERROR(boom)")]
    );
}

#[test]
fn invalid_source_output_is_a_protocol_violation() {
    let mut script = Script::default();
    script.op(SOURCE, "Source", "Source", vec![Step::output(ScriptOutput::PipeEven(3))]);
    script.op(SINK, "Sink", "Sink", vec![]);
    let pipeline = Pipeline::new("Bad", vec![PipelineChannel::new(SOURCE, vec![])], SINK);
    let mut runtime = runtime(&pipeline);

    match runtime.step(&script, 0) {
        Err(StepError::Protocol(violation)) => {
            assert_eq!(
                violation,
                ProtocolViolation::InvalidSourceOutput(OpOutputKind::PipeEven)
            );
            assert_eq!(violation.message(), "invalid source output: PIPE_EVEN");
        }
        _ => panic!("expected a protocol violation"),
    }
}

#[test]
fn yield_must_be_answered_with_yield_back() {
    let mut script = Script::default();
    script.op(
        SOURCE,
        "Source",
        "Source",
        vec![Step::output(ScriptOutput::SourcePipeHasMore(1))],
    );
    script.op(
        PIPE,
        "Pipe",
        "Pipe",
        vec![
            Step::output(ScriptOutput::PipeYield),
            Step::output(ScriptOutput::PipeSinkNeedsMore),
        ],
    );
    script.op(SINK, "Sink", "Sink", vec![]);
    let pipeline = Pipeline::new(
        "BadYield",
        vec![PipelineChannel::new(SOURCE, vec![PipeInfo::new(PIPE)])],
        SINK,
    );
    let mut runtime = runtime(&pipeline);

    assert!(runtime.step(&script, 0).ok().unwrap().is_yield());
    match runtime.step(&script, 0) {
        Err(StepError::Protocol(violation)) => {
            assert_eq!(violation, ProtocolViolation::PipeYieldHandshake);
            assert_eq!(
                violation.message(),
                "pipe yield handshake must resume with PIPE_YIELD_BACK"
            );
        }
        _ => panic!("expected a protocol violation"),
    }
}

#[test]
fn unresumed_channel_stays_blocked_and_others_keep_running() {
    let mut script = Script::default();
    script.op(
        SOURCE,
        "Source1",
        "Source",
        vec![Step::blocked(), Step::output(ScriptOutput::Finished(None))],
    );
    script.op(
        SOURCE2,
        "Source2",
        "Source",
        vec![
            Step::output(ScriptOutput::SourcePipeHasMore(5)),
            Step::output(ScriptOutput::Finished(None)),
        ],
    );
    script.op(
        SINK,
        "Sink",
        "Sink",
        vec![Step::output(ScriptOutput::PipeSinkNeedsMore).with_expected_input(Some(5))],
    );
    let pipeline = Pipeline::new(
        "Mixed",
        vec![
            PipelineChannel::new(SOURCE, vec![]),
            PipelineChannel::new(SOURCE2, vec![]),
        ],
        SINK,
    );
    let mut runtime = runtime(&pipeline);

    // Channel 1 blocks, channel 2 makes progress: the lane continues.
    assert!(runtime.step(&script, 0).ok().unwrap().is_continue());
    // Channel 1 is still blocked; channel 2 finishes.
    assert!(runtime.step(&script, 0).ok().unwrap().is_continue());
    // Only channel 1 is left, and it is blocked.
    let status = runtime.step(&script, 0).ok().unwrap();
    assert!(status.is_blocked());
    let resumers = status.awaiter().unwrap().resumers.clone();
    assert_eq!(resumers.len(), 1);
    resumers[0].resume();
    assert!(runtime.step(&script, 0).ok().unwrap().is_finished());
    assert_eq!(
        script.traces(),
        vec![
            trace("Source1", "Source", None, "BLOCKED"),
            trace("Source2", "Source", None, "SOURCE_PIPE_HAS_MORE"),
            trace("Sink", "Sink", Some(Some(5)), "PIPE_SINK_NEEDS_MORE"),
            trace("Source2", "Source", None, "FINISHED"),
            trace("Source1", "Source", None, "FINISHED"),
        ]
    );
}

#[test]
fn lanes_run_independently() {
    let mut script = Script::default();
    script.op(
        SOURCE,
        "Source",
        "Source",
        vec![
            Step::output(ScriptOutput::Finished(None)),
            Step::output(ScriptOutput::Finished(None)),
        ],
    );
    script.op(SINK, "Sink", "Sink", vec![]);
    let pipeline = Pipeline::new("Lanes", vec![PipelineChannel::new(SOURCE, vec![])], SINK);
    let mut runtime: PipeExec<TestResumer> = compile(&pipeline, 2).pipelinexes()[0].pipe_exec();
    assert_eq!(runtime.dop(), 2);
    assert!(runtime.step(&script, 1).ok().unwrap().is_finished());
    assert!(runtime.step(&script, 0).ok().unwrap().is_finished());
    // A finished lane does not call its operators again.
    assert!(runtime.step(&script, 0).ok().unwrap().is_finished());
    assert_eq!(script.traces().len(), 2);
}

#[test]
fn status_labels_of_runtime_results() {
    let status: TaskStatus<RecordedAwaiter> = TaskStatus::Yield;
    assert_eq!(status.label(), "YIELD");
}

#[test]
fn a_stage_without_channels_finishes_on_any_lane() {
    let mut runtime: PipeExec<TestResumer> = PipeExec::new(&[], SINK, 1);
    let script = Script::default();
    assert!(matches!(runtime.step(&script, 5), Ok(TaskStatus::Finished)));
    assert!(script.traces().is_empty());
}
