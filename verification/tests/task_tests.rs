use broken_pipeline::{OpOutput, OpOutputKind, TaskHint, TaskHintType, TaskStatus};

struct NoopAwaiter;

#[test]
fn task_context_and_status_helpers_match_cpp_contract() {
    assert!(TaskStatus::<NoopAwaiter>::Continue.is_continue());
    assert!(TaskStatus::<NoopAwaiter>::Yield.is_yield());
    assert!(TaskStatus::<NoopAwaiter>::Finished.is_finished());
    assert!(TaskStatus::<NoopAwaiter>::Cancelled.is_cancelled());
    assert_eq!(TaskStatus::<NoopAwaiter>::Continue.label(), "CONTINUE");
    assert_eq!(TaskStatus::<NoopAwaiter>::Yield.label(), "YIELD");
    assert_eq!(TaskStatus::<NoopAwaiter>::Finished.label(), "FINISHED");
    assert_eq!(TaskStatus::<NoopAwaiter>::Cancelled.label(), "CANCELLED");

    let blocked = TaskStatus::Blocked(NoopAwaiter);
    assert!(blocked.is_blocked());
    assert!(blocked.awaiter().is_some());
    assert_eq!(blocked.label(), "BLOCKED");
}

#[test]
fn status_predicates_are_exclusive() {
    let statuses: Vec<TaskStatus<()>> = vec![
        TaskStatus::Continue,
        TaskStatus::Blocked(()),
        TaskStatus::Yield,
        TaskStatus::Finished,
        TaskStatus::Cancelled,
    ];
    for status in &statuses {
        let count = [
            status.is_continue(),
            status.is_blocked(),
            status.is_yield(),
            status.is_finished(),
            status.is_cancelled(),
        ]
        .iter()
        .filter(|b| **b)
        .count();
        assert_eq!(count, 1);
    }
    assert!(TaskStatus::<()>::Finished.awaiter().is_none());
}

#[test]
fn task_hint_defaults_to_cpu() {
    assert_eq!(TaskHint::default().kind, TaskHintType::Cpu);
    let io = TaskHint {
        kind: TaskHintType::Io,
    };
    assert_ne!(io, TaskHint::default());
}

#[test]
fn op_output_helpers_match_variants() {
    let outputs: Vec<OpOutput<i32, &'static str>> = vec![
        OpOutput::PipeSinkNeedsMore,
        OpOutput::PipeEven(1),
        OpOutput::SourcePipeHasMore(2),
        OpOutput::Blocked("resumer"),
        OpOutput::PipeYield,
        OpOutput::PipeYieldBack,
        OpOutput::Finished(None),
        OpOutput::Cancelled,
    ];
    let labels = [
        "PIPE_SINK_NEEDS_MORE",
        "PIPE_EVEN",
        "SOURCE_PIPE_HAS_MORE",
        "BLOCKED",
        "PIPE_YIELD",
        "PIPE_YIELD_BACK",
        "FINISHED",
        "CANCELLED",
    ];
    for (output, label) in outputs.iter().zip(labels.iter()) {
        assert_eq!(output.label(), *label);
        assert_eq!(output.kind().label(), *label);
    }
    assert!(outputs[0].is_pipe_sink_needs_more());
    assert!(outputs[1].is_pipe_even());
    assert!(outputs[2].is_source_pipe_has_more());
    assert!(outputs[3].is_blocked());
    assert_eq!(outputs[3].resumer(), Some(&"resumer"));
    assert!(outputs[4].is_pipe_yield());
    assert!(outputs[5].is_pipe_yield_back());
    assert!(outputs[6].is_finished());
    assert!(outputs[7].is_cancelled());
    assert!(outputs[0].resumer().is_none());
    assert_eq!(outputs[2].kind(), OpOutputKind::SourcePipeHasMore);
    assert!(!outputs[1].is_blocked());
}
