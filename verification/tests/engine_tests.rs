//! Cross-cutting engine behavior: multi-pass token retention, direct
//! working-set runs, input transforms and state functions.

use wasm_driver_utils::argproc::{process_invocation_args, run_pass, Tool, ToolArg};
use wasm_driver_utils::command_queue::{
    CommandQueue, CommandQueueError, InputArgsTransformResult, PipelineRun, Reply, Request,
    RunState,
};
use wasm_driver_utils::table::{ArgAction, TableInvocation};

fn arg(name: &str, single: Option<&str>, split: Option<&str>, has_action: bool) -> ToolArg {
    ToolArg {
        name: name.to_string(),
        single: single.map(|s| s.to_string()),
        split: split.map(|s| s.to_string()),
        has_action,
        help: None,
    }
}

/// A driver with two passes: the first claims `--first`, the second claims
/// everything left, each appending what it saw to its own list slot.
fn two_pass_invocation() -> TableInvocation {
    let pass0 = vec![arg("FIRST", Some(r"^--first=(.+)$"), None, true)];
    let pass1 = vec![arg("REST", Some(r"^(.*)$"), None, true)];
    let actions = vec![
        (
            "FIRST".to_string(),
            ArgAction::PushText { slot: 0, single_group: 1, split_group: 1 },
        ),
        (
            "REST".to_string(),
            ArgAction::PushText { slot: 1, single_group: 0, split_group: 0 },
        ),
    ];
    TableInvocation::new("two-pass".to_string(), vec![pass0, pass1], actions, vec![], 0, 2, 0)
}

/// Tokens the first pass leaves unmatched reach the second pass in their
/// original relative order.
#[test]
fn later_passes_see_leftovers_in_order() {
    let args = vec![
        "alpha".to_string(),
        "--first=1".to_string(),
        "beta".to_string(),
        "--first=2".to_string(),
        "gamma".to_string(),
    ];
    let mut invocation = two_pass_invocation();
    assert_eq!(process_invocation_args(&mut invocation, args), Ok(()));
    assert_eq!(invocation.list_slots[0], vec!["1".to_string(), "2".to_string()]);
    assert_eq!(
        invocation.list_slots[1],
        vec!["alpha".to_string(), "beta".to_string(), "gamma".to_string()]
    );
}

/// One pass over an explicit working set: matched tokens are consumed, the
/// rest stay, keeping their indices and order.
#[test]
fn run_pass_consumes_exactly_the_matched_tokens() {
    let mut invocation = two_pass_invocation();
    let pass = vec![arg("FIRST", Some(r"^--first=(.+)$"), None, true)];
    let mut working = vec![
        (0usize, "alpha".to_string()),
        (1usize, "--first=1".to_string()),
        (2usize, "beta".to_string()),
    ];
    assert_eq!(run_pass(&mut invocation, &pass, &mut working), Ok(()));
    assert_eq!(
        working,
        vec![(0usize, "alpha".to_string()), (2usize, "beta".to_string())]
    );
    assert_eq!(invocation.list_slots[0], vec!["1".to_string()]);
}

/// A tool whose transform rewrites or skips its external command.
#[derive(Debug, Default)]
struct Transformer {
    skip: bool,
}

impl Tool for Transformer {
    fn get_name(&self) -> String {
        "transformer".to_string()
    }

    fn add_tool_input(&mut self, _input: String) -> Result<(), String> {
        Ok(())
    }

    fn get_output(&self) -> Option<String> {
        None
    }

    fn override_output(&mut self, _out: String) {}

    fn enqueue_commands(&mut self, _queue: &mut CommandQueue<Self>) -> Result<(), String> {
        Ok(())
    }

    fn transform_input_args(
        &mut self,
        _id: u64,
        args: &mut Vec<String>,
        prev_outputs: &Vec<String>,
    ) -> InputArgsTransformResult {
        if self.skip {
            InputArgsTransformResult::Skip
        } else {
            for prev in prev_outputs {
                args.push(format!("--input={}", prev));
            }
            InputArgsTransformResult::Normal
        }
    }

    fn call_state_function(
        &mut self,
        _id: u64,
        state: &mut RunState,
    ) -> Result<(), CommandQueueError> {
        state.prev_outputs.push("synthetic.bc".to_string());
        Ok(())
    }
}

/// The input transform sees the accumulated outputs and rewrites the
/// command's arguments.
#[test]
fn transform_rewrites_arguments() {
    let mut queue: CommandQueue<Transformer> = CommandQueue::new(None);
    queue.enqueue_state_function(Some("synthesize".to_string()), 1);
    queue.enqueue_external_with_input_transform(
        Some("consume".to_string()),
        "consumer".to_string(),
        vec!["--fixed".to_string()],
        None,
        2,
    );

    let mut run = PipelineRun::start(queue);
    let mut inv = Transformer::default();
    let r = run.step(&mut inv, Reply::Start, false).unwrap();
    assert!(matches!(r, Request::MakeTempDir));
    let r = run
        .step(&mut inv, Reply::TempDirMade { path: "/t".to_string() }, false)
        .unwrap();
    match r {
        Request::RunProcess { program, args } => {
            assert_eq!(program, "consumer");
            assert_eq!(args, vec!["--fixed", "--input=synthetic.bc"]);
        }
        other => panic!("unexpected request: {:?}", other),
    }
    let r = run
        .step(&mut inv, Reply::Exited { success: true, code: Some(0) }, false)
        .unwrap();
    assert!(matches!(r, Request::Done));
}

/// A transform answering `Skip` drops the external command without running
/// it.
#[test]
fn transform_can_skip_the_command() {
    let mut queue: CommandQueue<Transformer> = CommandQueue::new(None);
    queue.enqueue_state_function(Some("synthesize".to_string()), 1);
    queue.enqueue_external_with_input_transform(
        Some("skipped".to_string()),
        "never-spawned".to_string(),
        vec![],
        None,
        2,
    );

    let mut run = PipelineRun::start(queue);
    let mut inv = Transformer { skip: true };
    let r = run.step(&mut inv, Reply::Start, false).unwrap();
    assert!(matches!(r, Request::MakeTempDir));
    // The skipped command never turns into a process request.
    let r = run
        .step(&mut inv, Reply::TempDirMade { path: "/t".to_string() }, false)
        .unwrap();
    assert!(matches!(r, Request::Done));
}

/// A failing function command aborts the queue with its error.
#[derive(Debug, Default)]
struct Failing;

impl Tool for Failing {
    fn get_name(&self) -> String {
        "failing".to_string()
    }

    fn add_tool_input(&mut self, _input: String) -> Result<(), String> {
        Ok(())
    }

    fn get_output(&self) -> Option<String> {
        None
    }

    fn override_output(&mut self, _out: String) {}

    fn enqueue_commands(&mut self, _queue: &mut CommandQueue<Self>) -> Result<(), String> {
        Ok(())
    }

    fn call_function(&mut self, _id: u64) -> Result<(), CommandQueueError> {
        Err(CommandQueueError::Error("function went wrong".to_string()))
    }
}

#[test]
fn failing_function_aborts_the_run() {
    let mut queue: CommandQueue<Failing> = CommandQueue::new(None);
    queue.enqueue_function(Some("boom".to_string()), 9);
    queue.enqueue_function(Some("never-reached".to_string()), 10);

    let mut run = PipelineRun::start(queue);
    let mut inv = Failing::default();
    let r = run.step(&mut inv, Reply::Start, false).unwrap();
    assert!(matches!(r, Request::MakeTempDir));
    let e = run
        .step(&mut inv, Reply::TempDirMade { path: "/t".to_string() }, false)
        .unwrap_err();
    match e {
        CommandQueueError::Error(msg) => assert_eq!(msg, "function went wrong"),
        other => panic!("unexpected error: {:?}", other),
    }
}
