use wasm_driver_utils::argproc::Tool;
use wasm_driver_utils::command_queue::{
    exit_outcome, CommandQueue, CommandQueueError, PipelineRun, Reply, Request, RunState,
};

/// A driver that records what the engine asked of it.
#[derive(Debug, Default)]
struct Recorder {
    output: Option<String>,
    inputs: Vec<String>,
    functions_run: Vec<u64>,
}

impl Tool for Recorder {
    fn get_name(&self) -> String {
        "recorder".to_string()
    }

    fn add_tool_input(&mut self, input: String) -> Result<(), String> {
        self.inputs.push(input);
        Ok(())
    }

    fn get_output(&self) -> Option<String> {
        self.output.clone()
    }

    fn override_output(&mut self, out: String) {
        self.output = Some(out);
    }

    fn enqueue_commands(&mut self, queue: &mut CommandQueue<Self>) -> Result<(), String> {
        // The nested tool's own pipeline: one function command.
        queue.enqueue_function(Some("nested-step".to_string()), 7);
        Ok(())
    }

    fn call_function(&mut self, id: u64) -> Result<(), CommandQueueError> {
        self.functions_run.push(id);
        Ok(())
    }
}

fn temp(path: &str) -> Reply {
    Reply::TempDirMade { path: path.to_string() }
}

fn exited(success: bool, code: Option<i32>) -> Reply {
    Reply::Exited { success, code }
}

/// A run over an empty queue succeeds trivially.
#[test]
fn run_all_empty_queue() {
    let queue: CommandQueue<Recorder> = CommandQueue::new(None);
    let mut run = PipelineRun::start(queue);
    let mut inv = Recorder::default();

    let r = run.step(&mut inv, Reply::Start, false).unwrap();
    assert!(matches!(r, Request::MakeTempDir));
    let r = run.step(&mut inv, temp("/tmp/q"), false).unwrap();
    assert!(matches!(r, Request::Done));
}

/// The compile-then-link pipeline: the first command writes under the
/// ephemeral temp directory, the second receives that path as an added input
/// and writes to the caller's final output.
#[test]
fn compile_then_link() {
    let mut queue: CommandQueue<Recorder> = CommandQueue::new(Some("a.out".to_string()));
    queue.enqueue_external(
        Some("compile".to_string()),
        "cc".to_string(),
        vec!["-c".to_string(), "main.c".to_string()],
        Some("-o".to_string()),
        false,
        vec![],
    );
    queue.enqueue_external(
        Some("link".to_string()),
        "ld".to_string(),
        vec![],
        Some("-o".to_string()),
        false,
        vec![],
    );

    let mut run = PipelineRun::start(queue);
    let mut inv = Recorder::default();

    let r = run.step(&mut inv, Reply::Start, false).unwrap();
    assert!(matches!(r, Request::MakeTempDir));

    let r = run.step(&mut inv, temp("/tmp/q"), false).unwrap();
    match r {
        Request::RunProcess { program, args } => {
            assert_eq!(program, "cc");
            assert_eq!(args, vec!["-c", "main.c", "-o", "/tmp/q/0"]);
        }
        other => panic!("unexpected request: {:?}", other),
    }

    let r = run.step(&mut inv, exited(true, Some(0)), false).unwrap();
    match r {
        Request::RunProcess { program, args } => {
            assert_eq!(program, "ld");
            assert_eq!(args, vec!["/tmp/q/0", "-o", "a.out"]);
        }
        other => panic!("unexpected request: {:?}", other),
    }

    let r = run.step(&mut inv, exited(true, Some(0)), false).unwrap();
    assert!(matches!(r, Request::Done));
}

/// A `cant_fail` command exiting 1 does not abort the queue; the identical
/// command without `cant_fail` aborts immediately with that process error.
#[test]
fn cant_fail_is_advisory() {
    let mut queue: CommandQueue<Recorder> = CommandQueue::new(None);
    queue.enqueue_external(
        Some("advisory".to_string()),
        "helper".to_string(),
        vec![],
        Some("-o".to_string()),
        true,
        vec![],
    );
    queue.enqueue_external(
        Some("real".to_string()),
        "worker".to_string(),
        vec![],
        Some("-o".to_string()),
        false,
        vec![],
    );

    let mut run = PipelineRun::start(queue);
    let mut inv = Recorder::default();
    let r = run.step(&mut inv, Reply::Start, false).unwrap();
    assert!(matches!(r, Request::MakeTempDir));
    let r = run.step(&mut inv, temp("/t"), false).unwrap();
    assert!(matches!(r, Request::RunProcess { .. }));

    // Exit 1 of the advisory command: the queue continues to the next one.
    let r = run.step(&mut inv, exited(false, Some(1)), false).unwrap();
    match r {
        Request::RunProcess { program, .. } => assert_eq!(program, "worker"),
        other => panic!("unexpected request: {:?}", other),
    }

    // Exit 1 of the ordinary command: the run aborts with that code.
    let e = run.step(&mut inv, exited(false, Some(1)), false).unwrap_err();
    assert!(matches!(e, CommandQueueError::ProcessError(Some(1))));
}

#[test]
fn exit_outcome_matches_policy() {
    assert!(exit_outcome(false, true, Some(0)).is_ok());
    assert!(exit_outcome(true, false, Some(1)).is_ok());
    match exit_outcome(false, false, Some(3)) {
        Err(CommandQueueError::ProcessError(Some(3))) => {}
        other => panic!("unexpected outcome: {:?}", other),
    }
    match exit_outcome(false, false, None) {
        Err(CommandQueueError::ProcessError(None)) => {}
        other => panic!("unexpected outcome: {:?}", other),
    }
}

/// Cancellation is polled between commands: a pending stop aborts the rest of
/// the queue with the distinguished process error.
#[test]
fn cancellation_between_commands() {
    let mut queue: CommandQueue<Recorder> = CommandQueue::new(None);
    queue.enqueue_external(
        Some("one".to_string()),
        "a".to_string(),
        vec![],
        None,
        false,
        vec![],
    );
    queue.enqueue_external(
        Some("two".to_string()),
        "b".to_string(),
        vec![],
        None,
        false,
        vec![],
    );

    let mut run = PipelineRun::start(queue);
    let mut inv = Recorder::default();
    let r = run.step(&mut inv, Reply::Start, false).unwrap();
    assert!(matches!(r, Request::MakeTempDir));
    let r = run.step(&mut inv, temp("/t"), false).unwrap();
    assert!(matches!(r, Request::RunProcess { .. }));

    // The first command is allowed to finish; the stop lands before the next.
    let e = run.step(&mut inv, exited(true, Some(0)), true).unwrap_err();
    assert!(matches!(e, CommandQueueError::ProcessError(Some(1))));
}

/// A nested tool receives the accumulated outputs as inputs, has its output
/// forced when asked, and runs its own sub-pipeline to completion in a fresh
/// temp directory.
#[test]
fn nested_tool_runs_sub_pipeline() {
    let mut queue: CommandQueue<Recorder> = CommandQueue::new(Some("final.wasm".to_string()));
    queue.enqueue_external(
        Some("produce".to_string()),
        "producer".to_string(),
        vec![],
        Some("-o".to_string()),
        false,
        vec![],
    );
    let sub = Recorder::default();
    queue.enqueue_simple_tool(Some("sub".to_string()), sub);

    let mut run = PipelineRun::start(queue);
    let mut inv = Recorder::default();
    let r = run.step(&mut inv, Reply::Start, false).unwrap();
    assert!(matches!(r, Request::MakeTempDir));
    let r = run.step(&mut inv, temp("/t"), false).unwrap();
    assert!(matches!(r, Request::RunProcess { .. }));

    // After the producer exits, the nested tool is set up: it gets the
    // producer's output as an input, its output is forced to the final path,
    // and its sub-pipeline needs its own temp directory.
    let r = run.step(&mut inv, exited(true, Some(0)), false).unwrap();
    assert!(matches!(r, Request::MakeTempDir));
    let r = run.step(&mut inv, temp("/t2"), false).unwrap();
    assert!(matches!(r, Request::Done));
}

#[test]
fn run_state_output_paths() {
    let state = RunState {
        idx: 3,
        final_output: Some("out.wasm".to_string()),
        prev_outputs: vec![],
        intermediate: "/tmp/work".to_string(),
        is_last: false,
        dry_run: false,
    };
    assert_eq!(state.output(&None), "/tmp/work/3");
    assert_eq!(state.output(&Some("stage.bc".to_string())), "/tmp/work/stage.bc");
    assert!(!state.is_dry_run());

    let last = RunState { is_last: true, ..state };
    assert_eq!(last.output(&None), "out.wasm");
    let last_unnamed = RunState {
        idx: 0,
        final_output: None,
        prev_outputs: vec![],
        intermediate: "/tmp/work".to_string(),
        is_last: true,
        dry_run: true,
    };
    assert_eq!(last_unnamed.output(&None), "/tmp/work/0");
    assert!(last_unnamed.is_dry_run());
}
