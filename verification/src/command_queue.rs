//! The command-queue execution engine: an ordered pipeline of heterogeneous
//! commands (external process, nested sub-tool, plain function), threading
//! intermediate artifacts through an ephemeral temp directory. The outside
//! work — making the temp directory, spawning a process, copying a file — is
//! performed by the caller, which drives the verified machine one request at
//! a time and hands each outcome back; cancellation is polled between
//! commands, and nested sub-pipelines are an explicit call stack of frames.

use vstd::prelude::*;

verus! {

use vstd::string::StringExecFns;
use crate::argproc::{Tool, ToolInvocation, process_invocation_args, spec_process, spec_tokens_of};
use crate::text;

/// What an input-transform asks the engine to do with its external command:
/// run it as usual, or skip it altogether.
#[derive(Clone, Copy, Debug, PartialEq, Eq, Structural, Hash)]
pub enum InputArgsTransformResult {
    Normal,
    Skip,
}

impl Default for InputArgsTransformResult {
    fn default() -> (r: Self)
        ensures
            r == InputArgsTransformResult::Normal,
    {
        InputArgsTransformResult::Normal
    }
}

/// How a pipeline fails: an ordinary error message, or an external process
/// that could not be spawned or exited non-zero (with its exit code when
/// known).
#[derive(Debug, Clone)]
pub enum CommandQueueError {
    Error(String),
    ProcessError(Option<i32>),
}

impl From<String> for CommandQueueError {
    fn from(v: String) -> (r: CommandQueueError) {
        CommandQueueError::Error(v)
    }
}

impl vstd::std_specs::convert::FromSpecImpl<String> for CommandQueueError {
    open spec fn obeys_from_spec() -> bool {
        true
    }

    open spec fn from_spec(v: String) -> CommandQueueError {
        CommandQueueError::Error(v)
    }
}

/// The bookkeeping every queued command carries, whatever its kind.
#[derive(Debug)]
pub struct ConcreteCommand {
    pub name: Option<String>,
    /// A failure of this command is advisory: it is reported but does not
    /// abort the queue.
    pub cant_fail: bool,
    /// Extra temp directories owned by this command; their lifetime is the
    /// caller's business.
    pub tmp_dirs: Vec<String>,
    pub intermediate_name: Option<String>,
    /// Whether the outputs accumulated by earlier commands are drained and
    /// fed to this one as inputs.
    pub prev_outputs: bool,
    /// Whether the engine forces this command's output path rather than
    /// letting the command pick its own.
    pub output_override: bool,
    pub copy_output_to: Option<String>,
}

/// The work a command does, as a tagged union: one execution protocol over a
/// heterogeneous queue.
#[derive(Debug)]
pub enum CommandKind<T> {
    /// An external process: program, arguments, the flag that names its
    /// output file (if any), and an optional input-transform dispatched
    /// through the invocation by identifier.
    External { program: String, args: Vec<String>, output_arg: Option<String>, transform: Option<
        u64,
    > },
    /// A nested tool run to completion as a sub-pipeline.
    NestedTool { tool: T },
    /// A plain function of the invocation, dispatched by identifier.
    Function { id: u64 },
    /// As `Function`, but also handed the current run state.
    FunctionWithState { id: u64 },
}

#[derive(Debug)]
pub struct Command<T> {
    pub concrete: ConcreteCommand,
    pub kind: CommandKind<T>,
}

/// The per-run state every command sees: the position in the queue, the
/// caller's requested final output, the artifacts accumulated so far, and the
/// shared temp directory of the run.
#[derive(Debug)]
pub struct RunState {
    pub idx: usize,
    pub final_output: Option<String>,
    pub prev_outputs: Vec<String>,
    pub intermediate: String,
    pub is_last: bool,
    pub dry_run: bool,
}

pub open spec fn spec_output_path(
    idx: usize,
    final_output: Option<Seq<char>>,
    intermediate: Seq<char>,
    is_last: bool,
    name: Option<Seq<char>>,
) -> Seq<char> {
    if is_last && final_output is Some {
        final_output.unwrap()
    } else if name is Some {
        text::spec_path_join(intermediate, name.unwrap())
    } else {
        text::spec_path_join(intermediate, text::spec_decimal(idx as int))
    }
}

impl RunState {
    /// The output path of the current command: the caller's final path when
    /// this is the last command and one was requested, else a file named
    /// after the command (or its index) under the run's temp directory.
    pub fn output(&self, intermediate_name: &Option<String>) -> (r: String)
        ensures
            r@ == spec_output_path(
                self.idx,
                match self.final_output {
                    Some(f) => Some(f@),
                    None => None,
                },
                self.intermediate@,
                self.is_last,
                match intermediate_name {
                    Some(n) => Some(n@),
                    None => None,
                },
            ),
    {
        if self.is_last && self.final_output.is_some() {
            match &self.final_output {
                Some(f) => f.clone(),
                None => String::new(),
            }
        } else if let Some(name) = intermediate_name {
            text::path_join(self.intermediate.as_str(), name.as_str())
        } else {
            let digits = text::u64_to_string(self.idx as u64);
            text::path_join(self.intermediate.as_str(), digits.as_str())
        }
    }

    pub fn is_dry_run(&self) -> (r: bool)
        ensures
            r == self.dry_run,
    {
        self.dry_run
    }
}

/// An ordered pipeline of commands, populated by a concrete driver and then
/// run to completion.
#[derive(Debug)]
pub struct CommandQueue<T> {
    pub final_output: Option<String>,
    queue: Vec<Command<T>>,
    verbose: bool,
    dry_run: bool,
}

impl<T> CommandQueue<T> {
    pub closed spec fn commands(&self) -> Seq<Command<T>> {
        self.queue@
    }

    pub closed spec fn spec_verbose(&self) -> bool {
        self.verbose
    }

    pub closed spec fn spec_dry_run(&self) -> bool {
        self.dry_run
    }

    pub closed spec fn spec_final_output(&self) -> Option<String> {
        self.final_output
    }

    pub fn new(final_output: Option<String>) -> (r: CommandQueue<T>)
        ensures
            r.spec_final_output() == final_output,
            r.commands() == Seq::<Command<T>>::empty(),
            !r.spec_verbose(),
            !r.spec_dry_run(),
    {
        CommandQueue { final_output, queue: Vec::new(), verbose: false, dry_run: false }
    }

    pub fn set_verbose(&mut self, v: bool)
        ensures
            final(self).spec_verbose() == v,
            final(self).commands() == old(self).commands(),
            final(self).spec_final_output() == old(self).spec_final_output(),
            final(self).spec_dry_run() == old(self).spec_dry_run(),
    {
        self.verbose = v;
    }

    pub fn set_dry_run(&mut self, v: bool)
        ensures
            final(self).spec_dry_run() == v,
            final(self).commands() == old(self).commands(),
            final(self).spec_final_output() == old(self).spec_final_output(),
            final(self).spec_verbose() == old(self).spec_verbose(),
    {
        self.dry_run = v;
    }

    pub fn len(&self) -> (r: usize)
        ensures
            r == self.commands().len(),
    {
        self.queue.len()
    }
}

/// One command was appended and the queue is otherwise untouched.
pub open spec fn spec_queue_extended<T>(pre: Seq<Command<T>>, post: Seq<Command<T>>) -> bool {
    post.len() == pre.len() + 1 && post.subrange(0, pre.len() as int) == pre
}

/// The bookkeeping an `enqueue_*` call fills in, as most of them do: no
/// intermediate name, previous outputs fed in, output path forced, no copy.
pub open spec fn spec_standard_concrete(
    c: ConcreteCommand,
    name: Option<String>,
    cant_fail: bool,
) -> bool {
    &&& c.name == name
    &&& c.cant_fail == cant_fail
    &&& c.intermediate_name is None
    &&& c.prev_outputs
    &&& c.output_override
    &&& c.copy_output_to is None
}

impl<T: Tool> CommandQueue<T> {
    /// Queues an external process; by default it receives the previous
    /// commands' outputs as inputs and has its output path forced by the
    /// engine.
    pub fn enqueue_external(
        &mut self,
        name: Option<String>,
        program: String,
        args: Vec<String>,
        output_arg: Option<String>,
        cant_fail: bool,
        tmp_dirs: Vec<String>,
    )
        ensures
            spec_queue_extended(old(self).commands(), final(self).commands()),
            ({
                let c = final(self).commands().last();
                &&& spec_standard_concrete(c.concrete, name, cant_fail)
                &&& c.concrete.tmp_dirs == tmp_dirs
                &&& match c.kind {
                    CommandKind::External { program: p, args: a, output_arg: o, transform: t } => p
                        == program && a == args && o == output_arg && t is None,
                    _ => false,
                }
            }),
            final(self).spec_final_output() == old(self).spec_final_output(),
    {
        let concrete = ConcreteCommand {
            name,
            cant_fail,
            tmp_dirs,
            intermediate_name: None,
            prev_outputs: true,
            output_override: true,
            copy_output_to: None,
        };
        let kind = CommandKind::External { program, args, output_arg, transform: None };
        self.queue.push(Command { concrete, kind });
        proof {
            assert(self.queue@.subrange(0, old(self).queue@.len() as int) =~= old(self).queue@);
        }
    }

    /// As `enqueue_external`, with the bookkeeping left at its defaults.
    pub fn enqueue_simple_external(
        &mut self,
        name: Option<String>,
        program: String,
        args: Vec<String>,
        output_arg: Option<String>,
    )
        ensures
            spec_queue_extended(old(self).commands(), final(self).commands()),
            ({
                let c = final(self).commands().last();
                &&& spec_standard_concrete(c.concrete, name, false)
                &&& c.concrete.tmp_dirs@ == Seq::<String>::empty()
                &&& match c.kind {
                    CommandKind::External { program: p, args: a, output_arg: o, transform: t } => p
                        == program && a == args && o == output_arg && t is None,
                    _ => false,
                }
            }),
            final(self).spec_final_output() == old(self).spec_final_output(),
    {
        let concrete = ConcreteCommand {
            name,
            cant_fail: false,
            tmp_dirs: Vec::new(),
            intermediate_name: None,
            prev_outputs: true,
            output_override: true,
            copy_output_to: None,
        };
        let kind = CommandKind::External { program, args, output_arg, transform: None };
        self.queue.push(Command { concrete, kind });
        proof {
            assert(self.queue@.subrange(0, old(self).queue@.len() as int) =~= old(self).queue@);
        }
    }

    /// Queues an external process whose previous-output handling goes through
    /// the invocation's input transform, dispatched by identifier.
    pub fn enqueue_external_with_input_transform(
        &mut self,
        name: Option<String>,
        program: String,
        args: Vec<String>,
        output_arg: Option<String>,
        transform: u64,
    )
        ensures
            spec_queue_extended(old(self).commands(), final(self).commands()),
            ({
                let c = final(self).commands().last();
                &&& spec_standard_concrete(c.concrete, name, false)
                &&& c.concrete.tmp_dirs@ == Seq::<String>::empty()
                &&& match c.kind {
                    CommandKind::External { program: p, args: a, output_arg: o, transform: t } => p
                        == program && a == args && o == output_arg && t == Some(transform),
                    _ => false,
                }
            }),
            final(self).spec_final_output() == old(self).spec_final_output(),
    {
        let concrete = ConcreteCommand {
            name,
            cant_fail: false,
            tmp_dirs: Vec::new(),
            intermediate_name: None,
            prev_outputs: true,
            output_override: true,
            copy_output_to: None,
        };
        let kind = CommandKind::External { program, args, output_arg, transform: Some(transform) };
        self.queue.push(Command { concrete, kind });
        proof {
            assert(self.queue@.subrange(0, old(self).queue@.len() as int) =~= old(self).queue@);
        }
    }

    /// Queues an already-configured nested tool.
    pub fn enqueue_simple_tool(&mut self, name: Option<String>, invoc: T)
        ensures
            spec_queue_extended(old(self).commands(), final(self).commands()),
            ({
                let c = final(self).commands().last();
                &&& spec_standard_concrete(c.concrete, name, false)
                &&& c.concrete.tmp_dirs@ == Seq::<String>::empty()
                &&& c.kind is NestedTool
            }),
            final(self).spec_final_output() == old(self).spec_final_output(),
    {
        let concrete = ConcreteCommand {
            name,
            cant_fail: false,
            tmp_dirs: Vec::new(),
            intermediate_name: None,
            prev_outputs: true,
            output_override: true,
            copy_output_to: None,
        };
        self.queue.push(Command { concrete, kind: CommandKind::NestedTool { tool: invoc } });
        proof {
            assert(self.queue@.subrange(0, old(self).queue@.len() as int) =~= old(self).queue@);
        }
    }

    /// Queues a plain function of the invocation, dispatched by identifier.
    /// Function commands neither consume previous outputs nor have their
    /// output forced.
    pub fn enqueue_function(&mut self, name: Option<String>, id: u64)
        ensures
            spec_queue_extended(old(self).commands(), final(self).commands()),
            ({
                let c = final(self).commands().last();
                &&& c.concrete.name == name
                &&& !c.concrete.cant_fail
                &&& !c.concrete.prev_outputs
                &&& !c.concrete.output_override
                &&& c.concrete.copy_output_to is None
                &&& c.kind == CommandKind::<T>::Function { id }
            }),
            final(self).spec_final_output() == old(self).spec_final_output(),
    {
        let concrete = ConcreteCommand {
            name,
            cant_fail: false,
            tmp_dirs: Vec::new(),
            intermediate_name: None,
            prev_outputs: false,
            output_override: false,
            copy_output_to: None,
        };
        self.queue.push(Command { concrete, kind: CommandKind::Function { id } });
        proof {
            assert(self.queue@.subrange(0, old(self).queue@.len() as int) =~= old(self).queue@);
        }
    }

    /// Queues a function of the invocation that also receives the run state.
    pub fn enqueue_state_function(&mut self, name: Option<String>, id: u64)
        ensures
            spec_queue_extended(old(self).commands(), final(self).commands()),
            ({
                let c = final(self).commands().last();
                &&& c.concrete.name == name
                &&& !c.concrete.cant_fail
                &&& !c.concrete.prev_outputs
                &&& !c.concrete.output_override
                &&& c.concrete.copy_output_to is None
                &&& c.kind == CommandKind::<T>::FunctionWithState { id }
            }),
            final(self).spec_final_output() == old(self).spec_final_output(),
    {
        let concrete = ConcreteCommand {
            name,
            cant_fail: false,
            tmp_dirs: Vec::new(),
            intermediate_name: None,
            prev_outputs: false,
            output_override: false,
            copy_output_to: None,
        };
        self.queue.push(Command { concrete, kind: CommandKind::FunctionWithState { id } });
        proof {
            assert(self.queue@.subrange(0, old(self).queue@.len() as int) =~= old(self).queue@);
        }
    }

    /// Queues a fully spelled-out command.
    pub fn enqueue_custom(&mut self, command: Command<T>)
        ensures
            final(self).commands() == old(self).commands().push(command),
            final(self).spec_final_output() == old(self).spec_final_output(),
    {
        self.queue.push(command);
    }
}

impl<T: ToolInvocation> CommandQueue<T> {
    /// Processes the given arguments against a fresh sub-invocation and, when
    /// they are accepted, queues it as a nested tool: the call succeeds
    /// exactly when the argument run does, the queued tool's model is the
    /// run's outcome, and a refused run leaves the queue untouched with the
    /// run's own error.
    pub fn enqueue_tool(
        &mut self,
        name: Option<String>,
        invocation: T,
        args: Vec<String>,
        cant_fail: bool,
        tmp_dirs: Vec<String>,
    ) -> (r: Result<(), String>)
        ensures
            ({
                let outcome = spec_process::<T>(invocation.deep_view(), spec_tokens_of(args@), 0);
                match r {
                    Err(e) => outcome.0 == Result::<(), Seq<char>>::Err(e@) && *final(self)
                        == *old(self),
                    Ok(()) => {
                        &&& outcome.0 is Ok
                        &&& spec_queue_extended(old(self).commands(), final(self).commands())
                        &&& ({
                            let c = final(self).commands().last();
                            &&& spec_standard_concrete(c.concrete, name, cant_fail)
                            &&& c.concrete.tmp_dirs == tmp_dirs
                            &&& (match c.kind {
                                CommandKind::NestedTool { tool } => tool.deep_view() == outcome.1,
                                _ => false,
                            })
                        })
                        &&& final(self).spec_final_output() == old(self).spec_final_output()
                    },
                }
            }),
    {
        let mut invocation = invocation;
        match process_invocation_args(&mut invocation, args) {
            Ok(()) => {},
            Err(e) => {
                return Err(e);
            },
        }
        let concrete = ConcreteCommand {
            name,
            cant_fail,
            tmp_dirs,
            intermediate_name: None,
            prev_outputs: true,
            output_override: true,
            copy_output_to: None,
        };
        self.queue.push(Command { concrete, kind: CommandKind::NestedTool { tool: invocation } });
        proof {
            assert(self.queue@.subrange(0, old(self).queue@.len() as int) =~= old(self).queue@);
        }
        Ok(())
    }
}

/// Whether an external command's exit aborts the run: a failure is an error
/// carrying the exit code, unless the command was marked advisory.
pub fn exit_outcome(cant_fail: bool, success: bool, code: Option<i32>) -> (r: Result<
    (),
    CommandQueueError,
>)
    ensures
        r is Err <==> (!cant_fail && !success),
        !cant_fail && !success ==> r == Result::<(), CommandQueueError>::Err(
            CommandQueueError::ProcessError(code),
        ),
{
    if !cant_fail && !success {
        Err(CommandQueueError::ProcessError(code))
    } else {
        Ok(())
    }
}

/// The outside work the engine asks its driver to perform next.
#[derive(Debug)]
pub enum Request {
    /// Make a fresh temp directory for the frame about to run and reply with
    /// its path.
    MakeTempDir,
    /// Spawn the process, wait for it, and reply with its exit.
    RunProcess { program: String, args: Vec<String> },
    /// Copy a produced artifact and reply whether that worked.
    CopyFile { from: String, to: String },
    /// The whole pipeline ran to completion.
    Done,
}

/// The driver's answer to the engine's previous request.
#[derive(Debug)]
pub enum Reply {
    /// Nothing was requested yet: begin the run.
    Start,
    TempDirMade { path: String },
    Exited { success: bool, code: Option<i32> },
    Copied { ok: bool, message: String },
}

/// What the engine is waiting for.
pub enum PendingOp {
    Start,
    TempDir,
    Process { cant_fail: bool, out: String, copy_to: Option<String> },
    Copy,
    Done,
}


struct Frame<T> {
    queue: Vec<Command<T>>,
    state: RunState,
    /// The sub-tool of a nested frame; the root frame uses the caller's
    /// invocation.
    tool: Option<T>,
    /// A copy requested by the nested command once its sub-pipeline is done.
    on_done_copy: Option<(String, String)>,
    /// Whether the frame's temp directory has been made.
    started: bool,
}

spec fn frames_measure<T>(frames: Seq<Frame<T>>) -> nat
    decreases frames.len(),
{
    if frames.len() == 0 {
        0
    } else {
        frames_measure(frames.drop_last()) + frames.last().queue@.len() + 1
    }
}

proof fn lemma_frames_measure_push<T>(frames: Seq<Frame<T>>, f: Frame<T>)
    ensures
        frames_measure(frames.push(f)) == frames_measure(frames) + f.queue@.len() + 1,
{
    assert(frames.push(f).drop_last() =~= frames);
    assert(frames.push(f).last() == f);
}

/// A command index after its command completed: one further, saturating.
pub open spec fn spec_bump(i: usize) -> usize {
    if i < usize::MAX {
        (i + 1) as usize
    } else {
        i
    }
}

/// The argument vector an external command is spawned with: its own
/// arguments, then the drained previous outputs when the command consumes
/// them, then the output flag and the computed output path when the engine
/// forces the output.
pub open spec fn spec_external_args(
    c: ConcreteCommand,
    base: Seq<Seq<char>>,
    output_arg: Option<String>,
    prevs: Seq<Seq<char>>,
    out: Seq<char>,
) -> Seq<Seq<char>> {
    (if c.prev_outputs {
        base + prevs
    } else {
        base
    }) + (if output_arg is Some && c.output_override {
        seq![output_arg.unwrap()@, out]
    } else {
        Seq::<Seq<char>>::empty()
    })
}

/// The accumulated outputs after an external command is issued: drained when
/// the command consumed them, and holding the computed output path when the
/// engine forced the output.
pub open spec fn spec_prevs_after_external(
    c: ConcreteCommand,
    output_arg: Option<String>,
    prevs: Seq<Seq<char>>,
    out: Seq<char>,
) -> Seq<Seq<char>> {
    (if c.prev_outputs {
        Seq::<Seq<char>>::empty()
    } else {
        prevs
    }) + (if output_arg is Some && c.output_override {
        seq![out]
    } else {
        Seq::<Seq<char>>::empty()
    })
}

pub open spec fn spec_opt_str_view(o: Option<String>) -> Option<Seq<char>> {
    match o {
        Some(s) => Some(s@),
        None => None,
    }
}

/// Whether a reply is an answer to the outstanding request.
pub open spec fn spec_reply_matches(p: PendingOp, r: Reply) -> bool {
    ||| (p is Start && r is Start)
    ||| (p is TempDir && r is TempDirMade)
    ||| (p is Process && r is Exited)
    ||| (p is Copy && r is Copied)
}

/// One pipeline execution: a call stack of frames, the innermost of which is
/// running, driven from outside one request at a time.
pub struct PipelineRun<T> {
    frames: Vec<Frame<T>>,
    pending: PendingOp,
}

/// What the engine answers when the active frame is started and holds the
/// given commands and state: a pending stop aborts with the distinguished
/// process error; an external head (without an input transform) is issued as
/// a process request carrying exactly its own arguments, the drained
/// previous outputs, and the forced output flag and path, which is also what
/// the accumulated outputs then hold; a nested-tool head asks for the
/// sub-run's temp directory unless the invocation's own calls fail first.
pub open spec fn spec_head_answer<T: Tool>(
    q: Seq<Command<T>>,
    st: RunState,
    len: nat,
    cancelled: bool,
    r: Result<Request, CommandQueueError>,
    post: PipelineRun<T>,
) -> bool {
    &&& (q.len() > 0 && cancelled ==> r == Result::<Request, CommandQueueError>::Err(
        CommandQueueError::ProcessError(Some(1i32)),
    ))
    &&& (q.len() > 0 && !cancelled ==> (match q[0].kind {
        CommandKind::External { program, args, output_arg, transform } => transform is None ==> ({
            let out = spec_output_path(
                st.idx,
                spec_opt_str_view(st.final_output),
                st.intermediate@,
                q.len() == 1,
                spec_opt_str_view(q[0].concrete.intermediate_name),
            );
            &&& (match r {
                Ok(req) => match req {
                    Request::RunProcess { program: rp, args: ra } => rp == program
                        && ra.deep_view() == spec_external_args(
                        q[0].concrete,
                        args.deep_view(),
                        output_arg,
                        st.prev_outputs.deep_view(),
                        out,
                    ),
                    _ => false,
                },
                Err(_) => false,
            })
            &&& (match post.spec_pending() {
                PendingOp::Process { cant_fail, out: pout, copy_to } => cant_fail
                    == q[0].concrete.cant_fail && pout@ == out && copy_to
                    == q[0].concrete.copy_output_to,
                _ => false,
            })
            &&& post.spec_top_queue() == q.drop_first()
            &&& post.spec_top_state().prev_outputs.deep_view() == spec_prevs_after_external(
                q[0].concrete,
                output_arg,
                st.prev_outputs.deep_view(),
                out,
            )
            &&& post.spec_frames_len() == len
            &&& post.spec_top_started()
            &&& post.spec_top_state().idx == st.idx
            &&& post.spec_top_state().intermediate == st.intermediate
            &&& post.spec_top_state().final_output == st.final_output
            &&& post.spec_top_state().dry_run == st.dry_run
            &&& post.spec_top_state().is_last == (q.len() == 1)
        }),
        CommandKind::NestedTool { .. } => r is Err || (r == Result::<
            Request,
            CommandQueueError,
        >::Ok(Request::MakeTempDir) && post.spec_pending() is TempDir && post.spec_frames_len()
            == len + 1 && !post.spec_top_started() && post.spec_top_state().idx == 0
            && post.spec_top_state().prev_outputs@ == Seq::<String>::empty()),
        _ => true,
    }))
}

/// The output path the active frame's head command computes.
spec fn spec_frame_out<T>(f: Frame<T>) -> Seq<char> {
    spec_output_path(
        f.state.idx,
        match f.state.final_output {
            Some(x) => Some(x@),
            None => None,
        },
        f.state.intermediate@,
        f.queue@.len() == 1,
        match f.queue@[0].concrete.intermediate_name {
            Some(n) => Some(n@),
            None => None,
        },
    )
}

/// The entry states whose fixed answer is something other than an error or
/// a nested tool's temp-dir request: while none of them holds, the engine is
/// free to answer with an invocation error.
spec fn frames_owe_no_answer<T>(frames: Seq<Frame<T>>, cancelled: bool) -> bool {
    &&& frames.len() != 0
    &&& !(frames.len() >= 1 && !frames.last().started)
    &&& !(frames.len() == 1 && frames.last().started && frames.last().queue@.len() == 0
        && frames.last().on_done_copy is None)
    &&& !(frames.len() >= 1 && frames.last().started && frames.last().queue@.len() == 0
        && frames.last().on_done_copy is Some)
    &&& !(frames.len() >= 1 && frames.last().started && frames.last().queue@.len() > 0
        && cancelled)
    &&& !(frames.len() >= 1 && frames.last().started && frames.last().queue@.len() > 0
        && !cancelled && frames.last().queue@[0].kind matches CommandKind::External {
        transform: None,
        ..
    })
}

/// The stack states from which the engine's next answer is fixed before any
/// call into the invocation: these return within the first round of the
/// advance loop, leaving the stack as it was.
spec fn frames_determinate<T>(frames: Seq<Frame<T>>, cancelled: bool) -> bool {
    ||| frames.len() == 0
    ||| (frames.len() >= 1 && !frames.last().started)
    ||| (frames.len() >= 1 && frames.last().started && frames.last().queue@.len() == 0
        && frames.last().on_done_copy is Some)
    ||| (frames.len() >= 1 && frames.last().started && frames.last().queue@.len() > 0 && cancelled)
    ||| (frames.len() >= 1 && frames.last().started && frames.last().queue@.len() > 0 && !cancelled
        && (frames.last().queue@[0].kind matches CommandKind::External { transform: None, .. }
        || frames.last().queue@[0].kind is NestedTool))
}

impl<T: Tool> PipelineRun<T> {
    pub closed spec fn spec_pending(&self) -> PendingOp {
        self.pending
    }

    pub open spec fn is_finished(&self) -> bool {
        self.spec_pending() is Done
    }

    /// How many pipeline frames are on the call stack.
    pub closed spec fn spec_frames_len(&self) -> nat {
        self.frames@.len()
    }

    /// The commands the active frame still has to run.
    pub closed spec fn spec_top_queue(&self) -> Seq<Command<T>> {
        self.frames@.last().queue@
    }

    /// Whether the active frame's temp directory has been made.
    pub closed spec fn spec_top_started(&self) -> bool {
        self.frames@.last().started
    }

    /// The active frame's run state.
    pub closed spec fn spec_top_state(&self) -> RunState {
        self.frames@.last().state
    }

    /// The copy the active frame owes once its queue is done.
    pub closed spec fn spec_top_copy(&self) -> Option<(String, String)> {
        self.frames@.last().on_done_copy
    }

    /// Begins a run of the queue: one unstarted root frame holding exactly
    /// the queue's commands, final output and dry-run flag.
    pub fn start(queue: CommandQueue<T>) -> (r: PipelineRun<T>)
        ensures
            r.spec_pending() is Start,
            r.spec_frames_len() == 1,
            !r.spec_top_started(),
            r.spec_top_queue() == queue.commands(),
            r.spec_top_copy() is None,
            r.spec_top_state().idx == 0,
            r.spec_top_state().final_output == queue.spec_final_output(),
            r.spec_top_state().prev_outputs@ == Seq::<String>::empty(),
            r.spec_top_state().dry_run == queue.spec_dry_run(),
            !r.spec_top_state().is_last,
    {
        let final_output = match &queue.final_output {
            Some(f) => Some(f.clone()),
            None => None,
        };
        let state = RunState {
            idx: 0,
            final_output,
            prev_outputs: Vec::new(),
            intermediate: String::new(),
            is_last: false,
            dry_run: queue.dry_run,
        };
        let frame = Frame { queue: queue.queue, state, tool: None, on_done_copy: None, started: false };
        let mut frames = Vec::new();
        frames.push(frame);
        PipelineRun { frames, pending: PendingOp::Start }
    }

    /// Bumps the active frame's command index once a command has completed;
    /// everything else about the stack is untouched.
    fn finish_command(&mut self)
        ensures
            frames_measure(final(self).frames@) == frames_measure(old(self).frames@),
            final(self).pending == old(self).pending,
            final(self).frames@.len() == old(self).frames@.len(),
            forall|i: int| 0 <= i < old(self).frames@.len() - 1 ==> final(self).frames@[i] == old(self).frames@[i],
            old(self).frames@.len() > 0 ==> ({
                let f0 = old(self).frames@.last();
                let f1 = final(self).frames@.last();
                &&& f1.queue == f0.queue
                &&& f1.started == f0.started
                &&& f1.tool == f0.tool
                &&& f1.on_done_copy == f0.on_done_copy
                &&& f1.state.idx == spec_bump(f0.state.idx)
                &&& f1.state.final_output == f0.state.final_output
                &&& f1.state.prev_outputs == f0.state.prev_outputs
                &&& f1.state.intermediate == f0.state.intermediate
                &&& f1.state.is_last == f0.state.is_last
                &&& f1.state.dry_run == f0.state.dry_run
            }),
    {
        let ghost frames0 = self.frames@;
        match self.frames.pop() {
            Some(frame) => {
                let mut frame = frame;
                proof {
                    lemma_frames_measure_push(self.frames@, frame);
                    assert(self.frames@.push(frame) =~= frames0);
                }
                if frame.state.idx < usize::MAX {
                    frame.state.idx = frame.state.idx + 1;
                }
                proof {
                    lemma_frames_measure_push(self.frames@, frame);
                }
                self.frames.push(frame);
            },
            None => {},
        }
    }

    /// Applies the driver's reply to the engine's outstanding request and
    /// advances to the next one. A failed exit of a command not marked
    /// `cant_fail` aborts the run with exactly that process error; a failed
    /// exit of a `cant_fail` command is swallowed and the queue continues.
    /// When `cancelled` is set, the run aborts before starting another
    /// command. The head-command clauses say exactly which request comes
    /// next; what a function command or an input transform does rests with
    /// the invocation's own methods, called between requests.
    pub fn step(&mut self, inv: &mut T, reply: Reply, cancelled: bool) -> (r: Result<
        Request,
        CommandQueueError,
    >)
        ensures
            (match (old(self).spec_pending(), reply) {
                (PendingOp::Process { cant_fail, .. }, Reply::Exited { success, code }) => !cant_fail
                    && !success ==> r == Result::<Request, CommandQueueError>::Err(
                    CommandQueueError::ProcessError(code),
                ),
                _ => true,
            }),
            r is Err ==> final(self).is_finished(),
            final(self).is_finished() <==> (r matches Ok(Request::Done) || r is Err),
            old(self).spec_pending() is Done ==> r == Result::<Request, CommandQueueError>::Ok(
                Request::Done,
            ),
            (!spec_reply_matches(old(self).spec_pending(), reply) && !(old(self).spec_pending()
                is Done)) ==> r is Err,
            (match (old(self).spec_pending(), reply) {
                (PendingOp::Process { cant_fail, out, copy_to: Some(to) }, Reply::Exited {
                    success,
                    ..
                }) => (success || cant_fail) ==> (r == Result::<Request, CommandQueueError>::Ok(
                    Request::CopyFile { from: out, to },
                ) && final(self).spec_pending() is Copy),
                _ => true,
            }),
            (match (old(self).spec_pending(), reply) {
                (PendingOp::Copy, Reply::Copied { ok, message }) => !ok ==> r == Result::<
                    Request,
                    CommandQueueError,
                >::Err(CommandQueueError::Error(message)),
                _ => true,
            }),
            (old(self).spec_pending() is Start && reply is Start && old(self).spec_frames_len()
                >= 1 && !old(self).spec_top_started()) ==> (r == Result::<
                Request,
                CommandQueueError,
            >::Ok(Request::MakeTempDir) && final(self).spec_pending() is TempDir && final(self).spec_frames_len() == old(self).spec_frames_len() && final(self).spec_top_queue()
                == old(self).spec_top_queue() && !final(self).spec_top_started() && final(self).spec_top_state() == old(self).spec_top_state() && final(self).spec_top_copy() == old(self).spec_top_copy()),
            (match (old(self).spec_pending(), reply) {
                (PendingOp::TempDir, Reply::TempDirMade { path }) => old(self).spec_frames_len()
                    >= 1 ==> ({
                    &&& (old(self).spec_frames_len() == 1 && old(self).spec_top_queue().len() == 0
                        && old(self).spec_top_copy() is None ==> r == Result::<
                        Request,
                        CommandQueueError,
                    >::Ok(Request::Done))
                    &&& spec_head_answer(
                        old(self).spec_top_queue(),
                        (RunState { intermediate: path, ..old(self).spec_top_state() }),
                        old(self).spec_frames_len(),
                        cancelled,
                        r,
                        *final(self),
                    )
                }),
                _ => true,
            }),
            (match (old(self).spec_pending(), reply) {
                (PendingOp::Process { cant_fail, copy_to: None, .. }, Reply::Exited {
                    success,
                    ..
                }) => (success || cant_fail) && old(self).spec_frames_len() >= 1 && old(self).spec_top_started() ==> ({
                    &&& (old(self).spec_frames_len() == 1 && old(self).spec_top_queue().len() == 0
                        && old(self).spec_top_copy() is None ==> r == Result::<
                        Request,
                        CommandQueueError,
                    >::Ok(Request::Done))
                    &&& spec_head_answer(
                        old(self).spec_top_queue(),
                        (RunState { idx: spec_bump(old(self).spec_top_state().idx), ..old(self).spec_top_state() }),
                        old(self).spec_frames_len(),
                        cancelled,
                        r,
                        *final(self),
                    )
                }),
                _ => true,
            }),
            (match (old(self).spec_pending(), reply) {
                (PendingOp::Copy, Reply::Copied { ok, .. }) => ok && old(self).spec_frames_len()
                    >= 1 && old(self).spec_top_started() ==> ({
                    &&& (old(self).spec_frames_len() == 1 && old(self).spec_top_queue().len() == 0
                        && old(self).spec_top_copy() is None ==> r == Result::<
                        Request,
                        CommandQueueError,
                    >::Ok(Request::Done))
                    &&& spec_head_answer(
                        old(self).spec_top_queue(),
                        old(self).spec_top_state(),
                        old(self).spec_frames_len(),
                        cancelled,
                        r,
                        *final(self),
                    )
                }),
                _ => true,
            }),
    {
        let mut pending = PendingOp::Start;
        core::mem::swap(&mut pending, &mut self.pending);
        match (pending, reply) {
            (PendingOp::Start, Reply::Start) => {},
            (PendingOp::TempDir, Reply::TempDirMade { path }) => {
                let ghost frames0 = self.frames@;
                match self.frames.pop() {
                    Some(frame) => {
                        let mut frame = frame;
                        frame.state.intermediate = path;
                        frame.started = true;
                        self.frames.push(frame);
                        proof {
                            assert(self.frames@.len() == frames0.len());
                            assert(self.frames@.last() == frame);
                            assert(forall|i: int|
                                0 <= i < frames0.len() - 1 ==> #[trigger] self.frames@[i]
                                    == frames0[i]);
                        }
                    },
                    None => {
                        self.pending = PendingOp::Done;
                        return Err(CommandQueueError::Error("no frame to start".to_owned()));
                    },
                }
            },
            (PendingOp::Process { cant_fail, out, copy_to }, Reply::Exited { success, code }) => {
                match exit_outcome(cant_fail, success, code) {
                    Err(e) => {
                        self.pending = PendingOp::Done;
                        return Err(e);
                    },
                    Ok(()) => {},
                }
                self.finish_command();
                match copy_to {
                    Some(to) => {
                        self.pending = PendingOp::Copy;
                        return Ok(Request::CopyFile { from: out, to });
                    },
                    None => {},
                }
            },
            (PendingOp::Copy, Reply::Copied { ok, message }) => {
                if !ok {
                    self.pending = PendingOp::Done;
                    return Err(CommandQueueError::Error(message));
                }
            },
            (PendingOp::Done, _) => {
                self.pending = PendingOp::Done;
                return Ok(Request::Done);
            },
            _ => {
                self.pending = PendingOp::Done;
                return Err(
                    CommandQueueError::Error("reply does not answer the pending request".to_owned()),
                );
            },
        }
        self.advance(inv, cancelled)
    }

    /// Runs commands until outside work is needed: function commands and
    /// nested-tool setup run inline; an external command, a file copy or a
    /// fresh frame turns into a request to the driver.
    fn advance(&mut self, inv: &mut T, cancelled: bool) -> (r: Result<Request, CommandQueueError>)
        ensures
            r is Err ==> final(self).is_finished(),
            final(self).pending is Done <==> (r matches Ok(Request::Done) || r is Err),
            old(self).frames@.len() == 0 ==> r == Result::<Request, CommandQueueError>::Ok(
                Request::Done,
            ),
            (old(self).frames@.len() >= 1 && !old(self).frames@.last().started) ==> (r
                == Result::<Request, CommandQueueError>::Ok(Request::MakeTempDir) && final(self).frames@ == old(self).frames@ && final(self).pending is TempDir),
            (old(self).frames@.len() == 1 && old(self).frames@.last().started && old(self).frames@.last().queue@.len() == 0 && old(self).frames@.last().on_done_copy is None)
                ==> r == Result::<Request, CommandQueueError>::Ok(Request::Done),
            (old(self).frames@.len() >= 1 && old(self).frames@.last().started && old(self).frames@.last().queue@.len() == 0 && old(self).frames@.last().on_done_copy is Some)
                ==> (r == Result::<Request, CommandQueueError>::Ok(
                Request::CopyFile {
                    from: old(self).frames@.last().on_done_copy.unwrap().0,
                    to: old(self).frames@.last().on_done_copy.unwrap().1,
                },
            ) && final(self).pending is Copy),
            (old(self).frames@.len() >= 1 && old(self).frames@.last().started && old(self).frames@.last().queue@.len() > 0 && cancelled) ==> r == Result::<
                Request,
                CommandQueueError,
            >::Err(CommandQueueError::ProcessError(Some(1i32))),
            (old(self).frames@.len() >= 1 && old(self).frames@.last().started && old(self).frames@.last().queue@.len() > 0 && !cancelled) ==> (match old(self).frames@.last().queue@[0].kind {
                CommandKind::External { program, args, output_arg, transform } => transform
                    is None ==> ({
                    let f0 = old(self).frames@.last();
                    let head = f0.queue@[0];
                    let out = spec_frame_out(f0);
                    &&& (match r {
                        Ok(req) => match req {
                            Request::RunProcess { program: rp, args: ra } => rp == program
                                && ra.deep_view() == spec_external_args(
                                head.concrete,
                                args.deep_view(),
                                output_arg,
                                f0.state.prev_outputs.deep_view(),
                                out,
                            ),
                            _ => false,
                        },
                        Err(_) => false,
                    })
                    &&& (match final(self).pending {
                        PendingOp::Process { cant_fail, out: pout, copy_to } => cant_fail
                            == head.concrete.cant_fail && pout@ == out && copy_to
                            == head.concrete.copy_output_to,
                        _ => false,
                    })
                    &&& final(self).frames@.len() == old(self).frames@.len()
                    &&& final(self).frames@.last().queue@ == f0.queue@.drop_first()
                    &&& final(self).frames@.last().state.prev_outputs.deep_view()
                        == spec_prevs_after_external(
                        head.concrete,
                        output_arg,
                        f0.state.prev_outputs.deep_view(),
                        out,
                    )
                    &&& final(self).frames@.last().state.idx == f0.state.idx
                    &&& final(self).frames@.last().state.intermediate == f0.state.intermediate
                    &&& final(self).frames@.last().state.final_output == f0.state.final_output
                    &&& final(self).frames@.last().state.dry_run == f0.state.dry_run
                    &&& final(self).frames@.last().state.is_last == (f0.queue@.len() == 1)
                    &&& final(self).frames@.last().started
                }),
                CommandKind::NestedTool { .. } => r is Err || (r == Result::<
                    Request,
                    CommandQueueError,
                >::Ok(Request::MakeTempDir) && final(self).pending is TempDir && final(self).frames@.len() == old(self).frames@.len() + 1 && !final(self).frames@.last().started && final(self).frames@.last().state.idx == 0 && final(self).frames@.last().state.prev_outputs@ == Seq::<String>::empty()),
                _ => true,
            }),
    {
        loop
            invariant
                frames_determinate(old(self).frames@, cancelled) ==> self.frames@ == old(self).frames@,
                (old(self).frames@.len() == 1 && old(self).frames@.last().started && old(self).frames@.last().queue@.len() == 0 && old(self).frames@.last().on_done_copy
                    is None) ==> (self.frames@ == old(self).frames@ || self.frames@.len() == 0),
            decreases frames_measure(self.frames@),
        {
            let ghost frames0 = self.frames@;
            let mut frame = match self.frames.pop() {
                None => {
                    self.pending = PendingOp::Done;
                    return Ok(Request::Done);
                },
                Some(frame) => frame,
            };
            proof {
                lemma_frames_measure_push(self.frames@, frame);
                assert(self.frames@.push(frame) =~= frames0);
            }
            if !frame.started {
                self.frames.push(frame);
                self.pending = PendingOp::TempDir;
                return Ok(Request::MakeTempDir);
            }
            if frame.queue.len() == 0 {
                // The frame ran out of commands: its pipeline is complete.
                match frame.on_done_copy {
                    Some((from, to)) => {
                        self.finish_command();
                        self.pending = PendingOp::Copy;
                        return Ok(Request::CopyFile { from, to });
                    },
                    None => {
                        self.finish_command();
                    },
                }
                continue;
            }
            if cancelled {
                self.pending = PendingOp::Done;
                return Err(CommandQueueError::ProcessError(Some(1i32)));
            }
            let is_last = frame.queue.len() == 1;
            frame.state.is_last = is_last;
            let cmd = frame.queue.remove(0);
            match cmd.kind {
                CommandKind::External { program, args, output_arg, transform } => {
                    let out = frame.state.output(&cmd.concrete.intermediate_name);
                    let mut args = args;
                    if cmd.concrete.prev_outputs {
                        match transform {
                            Some(tid) => {
                                let prevs = frame.state.prev_outputs;
                                frame.state.prev_outputs = Vec::new();
                                let action = match &mut frame.tool {
                                    Some(tool) => tool.transform_input_args(tid, &mut args, &prevs),
                                    None => inv.transform_input_args(tid, &mut args, &prevs),
                                };
                                match action {
                                    InputArgsTransformResult::Skip => {
                                        match &cmd.concrete.copy_output_to {
                                            Some(copy_to) => {
                                                frame.state.prev_outputs.push(copy_to.clone());
                                            },
                                            None => {},
                                        }
                                        if frame.state.idx < usize::MAX {
                                            frame.state.idx = frame.state.idx + 1;
                                        }
                                        proof {
                                            lemma_frames_measure_push(self.frames@, frame);
                                        }
                                        self.frames.push(frame);
                                        continue;
                                    },
                                    InputArgsTransformResult::Normal => {},
                                }
                            },
                            None => {
                                let mut prevs = frame.state.prev_outputs;
                                frame.state.prev_outputs = Vec::new();
                                args.append(&mut prevs);
                            },
                        }
                    }
                    match output_arg {
                        Some(oarg) => {
                            if cmd.concrete.output_override {
                                frame.state.prev_outputs.push(out.clone());
                                args.push(oarg);
                                args.push(out.clone());
                            }
                        },
                        None => {},
                    }
                    self.frames.push(frame);
                    self.pending = PendingOp::Process {
                        cant_fail: cmd.concrete.cant_fail,
                        out,
                        copy_to: cmd.concrete.copy_output_to,
                    };
                    return Ok(Request::RunProcess { program, args });
                },
                CommandKind::NestedTool { tool } => {
                    proof {
                        assert(frames_owe_no_answer(old(self).frames@, cancelled));
                    }
                    let mut tool = tool;
                    let out = frame.state.output(&cmd.concrete.intermediate_name);
                    if cmd.concrete.prev_outputs {
                        let prevs = frame.state.prev_outputs;
                        frame.state.prev_outputs = Vec::new();
                        let n = prevs.len();
                        let mut k: usize = 0;
                        while k < n
                            invariant
                                n == prevs@.len(),
                                frames_owe_no_answer(old(self).frames@, cancelled),
                                self.frames@ == frames0.drop_last(),
                            decreases n - k,
                        {
                            match tool.add_tool_input(prevs[k].clone()) {
                                Ok(()) => {},
                                Err(msg) => {
                                    self.pending = PendingOp::Done;
                                    return Err(CommandQueueError::Error(msg));
                                },
                            }
                            k = k + 1;
                        }
                    }
                    let sub_out: String;
                    let mut sub_queue: CommandQueue<T>;
                    if cmd.concrete.output_override {
                        tool.override_output(out.clone());
                        frame.state.prev_outputs.push(out.clone());
                        sub_queue = CommandQueue::new(Some(out.clone()));
                        sub_out = out;
                    } else {
                        match tool.get_output() {
                            Some(o) => {
                                frame.state.prev_outputs.push(o.clone());
                                sub_queue = CommandQueue::new(Some(o.clone()));
                                sub_out = o;
                            },
                            None => {
                                sub_queue = CommandQueue::new(None);
                                sub_out = out;
                            },
                        }
                    }
                    match tool.enqueue_commands(&mut sub_queue) {
                        Ok(()) => {},
                        Err(msg) => {
                            self.pending = PendingOp::Done;
                            return Err(CommandQueueError::Error(msg));
                        },
                    }
                    let sub_final = match &sub_queue.final_output {
                        Some(f) => Some(f.clone()),
                        None => None,
                    };
                    let child_state = RunState {
                        idx: 0,
                        final_output: sub_final,
                        prev_outputs: Vec::new(),
                        intermediate: String::new(),
                        is_last: false,
                        dry_run: false,
                    };
                    let on_done_copy = match &cmd.concrete.copy_output_to {
                        Some(to) => Some((sub_out, to.clone())),
                        None => None,
                    };
                    let child = Frame {
                        queue: sub_queue.queue,
                        state: child_state,
                        tool: Some(tool),
                        on_done_copy,
                        started: false,
                    };
                    self.frames.push(frame);
                    self.frames.push(child);
                    proof {
                        assert(self.frames@.last().state.prev_outputs@ =~= Seq::<String>::empty());
                        assert(self.frames@.len() == frames0.len() + 1);
                    }
                    self.pending = PendingOp::TempDir;
                    return Ok(Request::MakeTempDir);
                },
                CommandKind::Function { id } => {
                    let res = match &mut frame.tool {
                        Some(tool) => tool.call_function(id),
                        None => inv.call_function(id),
                    };
                    match res {
                        Ok(()) => {},
                        Err(e) => {
                            self.pending = PendingOp::Done;
                            return Err(e);
                        },
                    }
                    if frame.state.idx < usize::MAX {
                        frame.state.idx = frame.state.idx + 1;
                    }
                    proof {
                        lemma_frames_measure_push(self.frames@, frame);
                    }
                    self.frames.push(frame);
                    continue;
                },
                CommandKind::FunctionWithState { id } => {
                    let res = match &mut frame.tool {
                        Some(tool) => tool.call_state_function(id, &mut frame.state),
                        None => inv.call_state_function(id, &mut frame.state),
                    };
                    match res {
                        Ok(()) => {},
                        Err(e) => {
                            self.pending = PendingOp::Done;
                            return Err(e);
                        },
                    }
                    if frame.state.idx < usize::MAX {
                        frame.state.idx = frame.state.idx + 1;
                    }
                    proof {
                        lemma_frames_measure_push(self.frames@, frame);
                    }
                    self.frames.push(frame);
                    continue;
                },
            }
        }
    }
}

} // verus!
