//! The multi-pass command-line argument dispatcher: declarative `ToolArg`
//! pattern tables are tried against the token stream, first match wins within
//! a pass, and per-pass errors are batched before the run aborts. The
//! invocation being driven carries a specification-level model, so the whole
//! run — which tokens each pass consumes, how the invocation's state
//! evolves, and the exact aggregated report — is pinned by `spec_process`.

use vstd::prelude::*;

verus! {

use vstd::string::StrSliceExecFns;
use vstd::string::StringExecFns;
use crate::command_queue::{CommandQueue, CommandQueueError, InputArgsTransformResult, RunState};

/// Names what `regex::Regex::captures` returns for a pattern and a subject
/// text: `None` when nothing matches, otherwise one entry per capture group,
/// group 0 being the whole match. The result depends on the two strings alone.
pub uninterp spec fn captures_of(pattern: Seq<char>, text: Seq<char>) -> Option<
    Seq<Option<Seq<char>>>,
>;

/// Relies on `regex::Regex::new` and `regex::Regex::captures`: compiles the
/// pattern and returns its capture groups on `text`; a pattern the regex
/// engine rejects matches nothing. Group 0 is the whole match and is always
/// present when the pattern matches at all.
#[verifier::external_body]
fn regex_captures(pattern: &str, text: &str) -> (r: Option<Vec<Option<String>>>)
    ensures
        r.deep_view() == captures_of(pattern@, text@),
        r matches Some(groups) ==> groups@.len() >= 1 && groups@[0] is Some,
{
    let re = match regex::Regex::new(pattern) {
        Ok(re) => re,
        Err(_) => return None,
    };
    re.captures(text).map(|caps| {
        (0..caps.len()).map(|i| caps.get(i).map(|m| m.as_str().to_string())).collect()
    })
}

/// One declarative argument: an optional single-token pattern (flag and value
/// in one token), an optional split pattern (flag alone, value in the next
/// token), and whether a matching token should be dispatched to the
/// invocation's action or merely accepted.
#[derive(Debug)]
pub struct ToolArg {
    pub name: String,
    pub single: Option<String>,
    pub split: Option<String>,
    pub has_action: bool,
    pub help: Option<String>,
}

/// The specification-level view of a `ToolArg`.
pub struct ToolArgView {
    pub name: Seq<char>,
    pub single: Option<Seq<char>>,
    pub split: Option<Seq<char>>,
    pub has_action: bool,
    pub help: Option<Seq<char>>,
}

impl DeepView for ToolArg {
    type V = ToolArgView;

    open spec fn deep_view(&self) -> ToolArgView {
        ToolArgView {
            name: self.name@,
            single: match self.single {
                Some(p) => Some(p@),
                None => None,
            },
            split: match self.split {
                Some(p) => Some(p@),
                None => None,
            },
            has_action: self.has_action,
            help: match self.help {
                Some(h) => Some(h@),
                None => None,
            },
        }
    }
}

/// The outcome of holding one `ToolArg` against one token, at the
/// specification level.
pub enum ArgMatchSpec {
    NoMatch,
    /// The single form matched; one token is consumed and these are the
    /// capture groups.
    Single(Seq<Option<Seq<char>>>),
    /// The split form matched and a value token followed; two tokens are
    /// consumed and the groups are the synthetic single-group capture of the
    /// value token.
    Split(Seq<Option<Seq<char>>>),
    /// The split form matched as the final token: the flag expects another
    /// argument.
    MissingValue,
}

/// The outcome of holding one `ToolArg` against one token.
pub enum ArgMatch {
    NoMatch,
    Single(Vec<Option<String>>),
    Split(Vec<Option<String>>),
    MissingValue,
}

impl DeepView for ArgMatch {
    type V = ArgMatchSpec;

    open spec fn deep_view(&self) -> ArgMatchSpec {
        match self {
            ArgMatch::NoMatch => ArgMatchSpec::NoMatch,
            ArgMatch::Single(caps) => ArgMatchSpec::Single(caps.deep_view()),
            ArgMatch::Split(caps) => ArgMatchSpec::Split(caps.deep_view()),
            ArgMatch::MissingValue => ArgMatchSpec::MissingValue,
        }
    }
}

pub open spec fn opt_str_view(s: Option<&String>) -> Option<Seq<char>> {
    match s {
        Some(s) => Some(s@),
        None => None,
    }
}

pub open spec fn spec_single_hit(arg: ToolArgView, tok: Seq<char>) -> bool {
    arg.single matches Some(p) && captures_of(p, tok) is Some
}

pub open spec fn spec_single_caps(arg: ToolArgView, tok: Seq<char>) -> Seq<Option<Seq<char>>> {
    captures_of(arg.single.unwrap(), tok).unwrap()
}

pub open spec fn spec_split_hit(arg: ToolArgView, tok: Seq<char>) -> bool {
    arg.split matches Some(p) && captures_of(p, tok) is Some
}

/// How one `ToolArg` treats one token: the single form is tried first; then
/// the split form, which consumes the following token as the value and fails
/// when there is none.
pub open spec fn spec_match_arg(arg: ToolArgView, tok: Seq<char>, next: Option<Seq<char>>)
    -> ArgMatchSpec {
    if spec_single_hit(arg, tok) {
        ArgMatchSpec::Single(spec_single_caps(arg, tok))
    } else if spec_split_hit(arg, tok) {
        match next {
            None => ArgMatchSpec::MissingValue,
            Some(n) => ArgMatchSpec::Split(seq![Some(n), Some(n)]),
        }
    } else {
        ArgMatchSpec::NoMatch
    }
}

pub fn match_tool_arg(arg: &ToolArg, tok: &String, next: Option<&String>) -> (r: ArgMatch)
    ensures
        r.deep_view() == spec_match_arg(arg.deep_view(), tok@, opt_str_view(next)),
{
    match &arg.single {
        Some(p) => {
            match regex_captures(p.as_str(), tok.as_str()) {
                Some(caps) => {
                    return ArgMatch::Single(caps);
                },
                None => {},
            }
        },
        None => {},
    }
    match &arg.split {
        Some(p) => {
            match regex_captures(p.as_str(), tok.as_str()) {
                Some(_) => {
                    match next {
                        None => ArgMatch::MissingValue,
                        Some(n) => {
                            let caps = vec![Some(n.clone()), Some(n.clone())];
                            proof {
                                assert(caps.deep_view() =~= seq![Some(n@), Some(n@)]);
                            }
                            ArgMatch::Split(caps)
                        },
                    }
                },
                None => ArgMatch::NoMatch,
            }
        },
        None => ArgMatch::NoMatch,
    }
}

/// The first entry of the pass that claims the token, with its outcome:
/// order within a pass is significant, first match wins.
pub open spec fn spec_find_match(pass: Seq<ToolArgView>, tok: Seq<char>, next: Option<Seq<char>>)
    -> Option<(int, ArgMatchSpec)>
    decreases pass.len(),
{
    if pass.len() == 0 {
        None
    } else if !(spec_match_arg(pass[0], tok, next) is NoMatch) {
        Some((0int, spec_match_arg(pass[0], tok, next)))
    } else {
        match spec_find_match(pass.drop_first(), tok, next) {
            Some(hit) => Some((hit.0 + 1, hit.1)),
            None => None,
        }
    }
}

proof fn lemma_find_match_some(pass: Seq<ToolArgView>, tok: Seq<char>, next: Option<Seq<char>>)
    ensures
        spec_find_match(pass, tok, next) matches Some(hit) ==> 0 <= hit.0 < pass.len() && hit.1
            == spec_match_arg(pass[hit.0], tok, next) && !(hit.1 is NoMatch),
    decreases pass.len(),
{
    if pass.len() > 0 && spec_match_arg(pass[0], tok, next) is NoMatch {
        lemma_find_match_some(pass.drop_first(), tok, next);
        match spec_find_match(pass.drop_first(), tok, next) {
            Some(hit) => {
                assert(pass.drop_first()[hit.0] == pass[hit.0 + 1]);
            },
            None => {},
        }
    }
}

proof fn lemma_find_match_prefix(
    pass: Seq<ToolArgView>,
    tok: Seq<char>,
    next: Option<Seq<char>>,
    j: int,
)
    requires
        0 <= j <= pass.len(),
        forall|k: int| 0 <= k < j ==> spec_match_arg(pass[k], tok, next) is NoMatch,
    ensures
        j == pass.len() ==> spec_find_match(pass, tok, next) is None,
        j < pass.len() && !(spec_match_arg(pass[j], tok, next) is NoMatch) ==> spec_find_match(
            pass,
            tok,
            next,
        ) == Some((j, spec_match_arg(pass[j], tok, next))),
    decreases pass.len(),
{
    if pass.len() > 0 && j > 0 {
        assert(spec_match_arg(pass[0], tok, next) is NoMatch);
        lemma_find_match_prefix(pass.drop_first(), tok, next, j - 1);
        assert(forall|k: int|
            0 <= k < j - 1 ==> pass.drop_first()[k] == pass[k + 1] && spec_match_arg(
                #[trigger] pass.drop_first()[k],
                tok,
                next,
            ) is NoMatch);
        if j < pass.len() {
            assert(pass.drop_first()[j - 1] == pass[j]);
        }
    }
}

pub fn find_match(pass: &Vec<ToolArg>, tok: &String, next: Option<&String>) -> (r: Option<
    (usize, ArgMatch),
>)
    ensures
        match r {
            None => spec_find_match(pass.deep_view(), tok@, opt_str_view(next)) is None,
            Some(hit) => spec_find_match(pass.deep_view(), tok@, opt_str_view(next)) == Some(
                (hit.0 as int, hit.1.deep_view()),
            ),
        },
{
    let ghost onext = opt_str_view(next);
    let mut j: usize = 0;
    while j < pass.len()
        invariant
            j <= pass@.len(),
            onext == opt_str_view(next),
            forall|k: int| 0 <= k < j ==> spec_match_arg(
                #[trigger] pass.deep_view()[k],
                tok@,
                onext,
            ) is NoMatch,
        decreases pass@.len() - j,
    {
        let m = match_tool_arg(&pass[j], tok, next);
        proof {
            assert(pass.deep_view()[j as int] == pass@[j as int].deep_view());
        }
        match m {
            ArgMatch::NoMatch => {
                j = j + 1;
            },
            _ => {
                proof {
                    lemma_find_match_prefix(pass.deep_view(), tok@, onext, j as int);
                }
                return Some((j, m));
            },
        }
    }
    proof {
        lemma_find_match_prefix(pass.deep_view(), tok@, onext, pass@.len() as int);
    }
    None
}

/// The value token that a split-form match would consume: the entry after the
/// current one in the working set, if any.
pub open spec fn spec_pass_next(toks: Seq<(usize, String)>) -> Option<Seq<char>> {
    if toks.len() >= 2 {
        Some(toks[1].1@)
    } else {
        None
    }
}

/// The working set a pass leaves behind: tokens no entry of the pass claims,
/// in their original order.
pub open spec fn spec_pass_remaining(pass: Seq<ToolArgView>, toks: Seq<(usize, String)>) -> Seq<
    (usize, String),
>
    decreases toks.len(),
{
    if toks.len() == 0 {
        Seq::empty()
    } else {
        match spec_find_match(pass, toks[0].1@, spec_pass_next(toks)) {
            None => seq![toks[0]] + spec_pass_remaining(pass, toks.drop_first()),
            Some(hit) => match hit.1 {
                ArgMatchSpec::Split(_) => if toks.len() >= 2 {
                    spec_pass_remaining(pass, toks.skip(2))
                } else {
                    Seq::empty()
                },
                _ => spec_pass_remaining(pass, toks.drop_first()),
            },
        }
    }
}

/// Whether some entry of the pass claims some token of the working set.
pub open spec fn spec_pass_any_match(pass: Seq<ToolArgView>, toks: Seq<(usize, String)>) -> bool
    decreases toks.len(),
{
    if toks.len() == 0 {
        false
    } else {
        match spec_find_match(pass, toks[0].1@, spec_pass_next(toks)) {
            None => spec_pass_any_match(pass, toks.drop_first()),
            Some(_) => true,
        }
    }
}

/// One line of the aggregated per-pass report.
pub open spec fn spec_error_line(tok: Seq<char>, msg: Seq<char>) -> Seq<char> {
    "error on argument `"@ + tok + "`: `"@ + msg + "`\n"@
}

/// The message a split-form flag with no value token reports.
pub open spec fn spec_missing_msg(arg: ToolArgView) -> Seq<char> {
    "`"@ + arg.split.unwrap() + "` expects another argument"@
}

/// The views of a list of strings, concatenated.
pub open spec fn spec_concat_views(es: Seq<String>) -> Seq<char>
    decreases es.len(),
{
    if es.len() == 0 {
        Seq::empty()
    } else {
        es[0]@ + spec_concat_views(es.drop_first())
    }
}

proof fn lemma_concat_views_push(es: Seq<String>, e: String)
    ensures
        spec_concat_views(es.push(e)) == spec_concat_views(es) + e@,
    decreases es.len(),
{
    assert(es.push(e).len() == es.len() + 1);
    assert(spec_concat_views(es.push(e)) == es.push(e)[0]@ + spec_concat_views(
        es.push(e).drop_first(),
    ));
    if es.len() == 0 {
        assert(es.push(e).drop_first() =~= Seq::<String>::empty());
        assert(es.push(e)[0] == e);
        assert(e@ + Seq::<char>::empty() =~= e@);
        assert(Seq::<char>::empty() + e@ =~= e@);
    } else {
        assert(es.push(e).drop_first() =~= es.drop_first().push(e));
        assert(es.push(e)[0] == es[0]);
        lemma_concat_views_push(es.drop_first(), e);
        assert((es[0]@ + spec_concat_views(es.drop_first())) + e@ =~= es[0]@ + (spec_concat_views(
            es.drop_first(),
        ) + e@));
    }
}

pub fn missing_value_message(pattern: &str) -> (r: String)
    ensures
        r@ == "`"@ + pattern@ + "` expects another argument"@,
{
    let mut out = "`".to_owned();
    out.append(pattern);
    out.append("` expects another argument");
    proof {
        assert(out@ =~= "`"@ + pattern@ + "` expects another argument"@);
    }
    out
}

pub fn format_arg_error(tok: &str, msg: &str) -> (r: String)
    ensures
        r@ == spec_error_line(tok@, msg@),
{
    let mut out = "error on argument `".to_owned();
    out.append(tok);
    out.append("`: `");
    out.append(msg);
    out.append("`\n");
    proof {
        assert(out@ =~= "error on argument `"@ + tok@ + "`: `"@ + msg@ + "`\n"@);
    }
    out
}

/// The capabilities a concrete driver exposes to the command queue.
pub trait Tool: Sized {
    fn get_name(&self) -> String;

    fn add_tool_input(&mut self, input: String) -> Result<(), String>;

    fn get_output(&self) -> Option<String>;

    /// Unconditionally set the output file.
    fn override_output(&mut self, out: String);

    fn enqueue_commands(&mut self, queue: &mut CommandQueue<Self>) -> Result<(), String>;

    /// The function-command of this tool with the given identifier, run when
    /// the queue reaches it.
    fn call_function(&mut self, id: u64) -> Result<(), CommandQueueError> {
        let _ = id;
        Err(CommandQueueError::Error("no function command bound to this identifier".to_owned()))
    }

    /// As `call_function`, but handed the current run state as well.
    fn call_state_function(&mut self, id: u64, state: &mut RunState) -> Result<
        (),
        CommandQueueError,
    > {
        let _ = id;
        Err(CommandQueueError::Error("no function command bound to this identifier".to_owned()))
    }

    /// The input transform with the given identifier: offered the accumulated
    /// previous outputs, it may rewrite the external command's arguments or
    /// ask for the command to be skipped.
    fn transform_input_args(&mut self, id: u64, args: &mut Vec<String>, prev_outputs: &Vec<String>)
        -> InputArgsTransformResult {
        let _ = id;
        let _ = prev_outputs;
        InputArgsTransformResult::Normal
    }
}

/// The capabilities the argument processor drives, together with their
/// specification-level model: a pass table per iteration, the action a
/// matched `ToolArg` dispatches to, and a cross-argument state check after
/// each pass. The model is the invocation's deep view, so the whole run is a
/// function of it; a driver implements the spec functions alongside the
/// methods, and the processor's contract speaks through them.
pub trait ToolInvocation: Tool + DeepView {
    /// The pass table the invocation offers at each iteration.
    spec fn spec_args(m: Self::V, iteration: int) -> Option<Seq<ToolArgView>>;

    /// Whether the action bound to `arg` accepts these captures.
    spec fn spec_act_ok(
        m: Self::V,
        arg: ToolArgView,
        is_single_form: bool,
        captures: Seq<Option<Seq<char>>>,
    ) -> bool;

    /// The message the action refuses with.
    spec fn spec_act_err(
        m: Self::V,
        arg: ToolArgView,
        is_single_form: bool,
        captures: Seq<Option<Seq<char>>>,
    ) -> Seq<char>;

    /// The invocation's model after the action ran.
    spec fn spec_acted(
        m: Self::V,
        arg: ToolArgView,
        is_single_form: bool,
        captures: Seq<Option<Seq<char>>>,
    ) -> Self::V;

    /// Whether the cross-argument state check accepts at this iteration.
    spec fn spec_check_ok(m: Self::V, iteration: int) -> bool;

    /// The message the state check refuses with.
    spec fn spec_check_err(m: Self::V, iteration: int) -> Seq<char>;

    /// The invocation's model after the state check ran.
    spec fn spec_checked(m: Self::V, iteration: int) -> Self::V;

    fn check_state(&mut self, iteration: usize) -> (r: Result<(), String>)
        ensures
            final(self).deep_view() == Self::spec_checked(old(self).deep_view(), iteration as int),
            r is Ok <==> Self::spec_check_ok(old(self).deep_view(), iteration as int),
            (match r {
                Err(e) => e@ == Self::spec_check_err(old(self).deep_view(), iteration as int),
                Ok(()) => true,
            }),
    ;

    /// Called until `None` is returned. Put args that override errors before
    /// the args that can have those errors.
    fn args(&self, iteration: usize) -> (r: Option<Vec<ToolArg>>)
        ensures
            (match r {
                Some(v) => Self::spec_args(self.deep_view(), iteration as int) == Some(
                    v.deep_view(),
                ),
                None => Self::spec_args(self.deep_view(), iteration as int) is None,
            }),
    ;

    /// The action bound to `arg`, invoked when one of its patterns matched;
    /// `is_single_form` tells which, and `captures` holds the capture groups.
    fn act(&mut self, arg: &ToolArg, is_single_form: bool, captures: &Vec<Option<String>>) -> (r:
        Result<(), String>)
        ensures
            final(self).deep_view() == Self::spec_acted(
                old(self).deep_view(),
                arg.deep_view(),
                is_single_form,
                captures.deep_view(),
            ),
            r is Ok <==> Self::spec_act_ok(
                old(self).deep_view(),
                arg.deep_view(),
                is_single_form,
                captures.deep_view(),
            ),
            (match r {
                Err(e) => e@ == Self::spec_act_err(
                    old(self).deep_view(),
                    arg.deep_view(),
                    is_single_form,
                    captures.deep_view(),
                ),
                Ok(()) => true,
            }),
    ;
}

/// The invocation's model after one pass ran every matched action over the
/// working set, in token order.
pub open spec fn spec_pass_fold<T: ToolInvocation>(
    m: T::V,
    pass: Seq<ToolArgView>,
    toks: Seq<(usize, String)>,
) -> T::V
    decreases toks.len(),
{
    if toks.len() == 0 {
        m
    } else {
        match spec_find_match(pass, toks[0].1@, spec_pass_next(toks)) {
            None => spec_pass_fold::<T>(m, pass, toks.drop_first()),
            Some(hit) => match hit.1 {
                ArgMatchSpec::Single(caps) => spec_pass_fold::<T>(
                    if pass[hit.0].has_action {
                        T::spec_acted(m, pass[hit.0], true, caps)
                    } else {
                        m
                    },
                    pass,
                    toks.drop_first(),
                ),
                ArgMatchSpec::Split(caps) => {
                    let m1 = if pass[hit.0].has_action {
                        T::spec_acted(m, pass[hit.0], false, caps)
                    } else {
                        m
                    };
                    if toks.len() >= 2 {
                        spec_pass_fold::<T>(m1, pass, toks.skip(2))
                    } else {
                        m1
                    }
                },
                _ => spec_pass_fold::<T>(m, pass, toks.drop_first()),
            },
        }
    }
}

/// The aggregated report a pass produces: one line per action refusal and per
/// split-form flag with no value after it, in token order.
pub open spec fn spec_pass_report<T: ToolInvocation>(
    m: T::V,
    pass: Seq<ToolArgView>,
    toks: Seq<(usize, String)>,
) -> Seq<char>
    decreases toks.len(),
{
    if toks.len() == 0 {
        Seq::empty()
    } else {
        match spec_find_match(pass, toks[0].1@, spec_pass_next(toks)) {
            None => spec_pass_report::<T>(m, pass, toks.drop_first()),
            Some(hit) => match hit.1 {
                ArgMatchSpec::Single(caps) => {
                    let arg = pass[hit.0];
                    let line: Seq<char> = if arg.has_action && !T::spec_act_ok(m, arg, true, caps) {
                        spec_error_line(toks[0].1@, T::spec_act_err(m, arg, true, caps))
                    } else {
                        Seq::empty()
                    };
                    let m1 = if arg.has_action {
                        T::spec_acted(m, arg, true, caps)
                    } else {
                        m
                    };
                    line + spec_pass_report::<T>(m1, pass, toks.drop_first())
                },
                ArgMatchSpec::Split(caps) => {
                    let arg = pass[hit.0];
                    let line: Seq<char> = if arg.has_action && !T::spec_act_ok(m, arg, false, caps) {
                        spec_error_line(toks[0].1@, T::spec_act_err(m, arg, false, caps))
                    } else {
                        Seq::empty()
                    };
                    let m1 = if arg.has_action {
                        T::spec_acted(m, arg, false, caps)
                    } else {
                        m
                    };
                    if toks.len() >= 2 {
                        line + spec_pass_report::<T>(m1, pass, toks.skip(2))
                    } else {
                        line
                    }
                },
                ArgMatchSpec::MissingValue => spec_error_line(
                    toks[0].1@,
                    spec_missing_msg(pass[hit.0]),
                ) + spec_pass_report::<T>(m, pass, toks.drop_first()),
                _ => spec_pass_report::<T>(m, pass, toks.drop_first()),
            },
        }
    }
}

/// Whether a pass records any error: an action refusal or a missing split
/// value.
pub open spec fn spec_pass_has_errors<T: ToolInvocation>(
    m: T::V,
    pass: Seq<ToolArgView>,
    toks: Seq<(usize, String)>,
) -> bool
    decreases toks.len(),
{
    if toks.len() == 0 {
        false
    } else {
        match spec_find_match(pass, toks[0].1@, spec_pass_next(toks)) {
            None => spec_pass_has_errors::<T>(m, pass, toks.drop_first()),
            Some(hit) => match hit.1 {
                ArgMatchSpec::Single(caps) => {
                    let arg = pass[hit.0];
                    let failed = arg.has_action && !T::spec_act_ok(m, arg, true, caps);
                    let m1 = if arg.has_action {
                        T::spec_acted(m, arg, true, caps)
                    } else {
                        m
                    };
                    failed || spec_pass_has_errors::<T>(m1, pass, toks.drop_first())
                },
                ArgMatchSpec::Split(caps) => {
                    let arg = pass[hit.0];
                    let failed = arg.has_action && !T::spec_act_ok(m, arg, false, caps);
                    let m1 = if arg.has_action {
                        T::spec_acted(m, arg, false, caps)
                    } else {
                        m
                    };
                    failed || (toks.len() >= 2 && spec_pass_has_errors::<T>(m1, pass, toks.skip(2)))
                },
                ArgMatchSpec::MissingValue => true,
                _ => spec_pass_has_errors::<T>(m, pass, toks.drop_first()),
            },
        }
    }
}

/// Runs one pass over the working set: every token is held against the pass
/// entries in order, matched tokens are consumed (and dispatched when the
/// entry has an action), and all errors of the pass are reported together.
/// On success the working set keeps exactly the unclaimed tokens, in order;
/// the invocation's model is folded through the matched actions either way,
/// and the error report is exactly `spec_pass_report`.
pub fn run_pass<T: ToolInvocation>(
    inv: &mut T,
    pass: &Vec<ToolArg>,
    working: &mut Vec<(usize, String)>,
) -> (r: Result<(), String>)
    ensures
        r is Ok ==> final(working)@ == spec_pass_remaining(pass.deep_view(), old(working)@),
        r is Ok <==> !spec_pass_has_errors::<T>(
            old(inv).deep_view(),
            pass.deep_view(),
            old(working)@,
        ),
        final(inv).deep_view() == spec_pass_fold::<T>(
            old(inv).deep_view(),
            pass.deep_view(),
            old(working)@,
        ),
        (match r {
            Err(e) => e@ == spec_pass_report::<T>(
                old(inv).deep_view(),
                pass.deep_view(),
                old(working)@,
            ),
            Ok(()) => true,
        }),
        r is Err ==> *final(working) == *old(working),
{
    let ghost toks0 = working@;
    let ghost pv = pass.deep_view();
    let ghost m0 = old(inv).deep_view();
    let mut i: usize = 0;
    let mut remaining: Vec<(usize, String)> = Vec::new();
    let mut errors: Vec<String> = Vec::new();
    proof {
        assert(toks0.skip(0) =~= toks0);
        assert(Seq::<char>::empty() + spec_pass_report::<T>(m0, pv, toks0)
            =~= spec_pass_report::<T>(m0, pv, toks0));
    }
    while i < working.len()
        invariant
            i <= working@.len(),
            working@ == toks0,
            toks0 == old(working)@,
            pv == pass.deep_view(),
            m0 == old(inv).deep_view(),
            spec_pass_remaining(pv, toks0) == remaining@ + spec_pass_remaining(
                pv,
                toks0.skip(i as int),
            ),
            spec_pass_fold::<T>(m0, pv, toks0) == spec_pass_fold::<T>(
                inv.deep_view(),
                pv,
                toks0.skip(i as int),
            ),
            spec_pass_report::<T>(m0, pv, toks0) == spec_concat_views(errors@)
                + spec_pass_report::<T>(inv.deep_view(), pv, toks0.skip(i as int)),
            spec_pass_has_errors::<T>(m0, pv, toks0) == (errors@.len() > 0
                || spec_pass_has_errors::<T>(inv.deep_view(), pv, toks0.skip(i as int))),
        decreases working@.len() - i,
    {
        let ghost rest = toks0.skip(i as int);
        proof {
            assert(rest[0] == toks0[i as int]);
            assert(rest.drop_first() =~= toks0.skip(i as int + 1));
            if rest.len() >= 2 {
                assert(rest[1] == toks0[i as int + 1]);
                assert(rest.skip(2) =~= toks0.skip(i as int + 2));
            }
        }
        let next: Option<&String> = if i + 1 < working.len() {
            Some(&working[i + 1].1)
        } else {
            None
        };
        proof {
            assert(opt_str_view(next) == spec_pass_next(rest));
        }
        let hit = find_match(pass, &working[i].1, next);
        match hit {
            None => {
                let entry = (working[i].0, working[i].1.clone());
                proof {
                    assert(entry == toks0[i as int]);
                }
                remaining.push(entry);
                proof {
                    assert(remaining@ =~= remaining@.drop_last() + seq![toks0[i as int]]);
                    assert(remaining@ + spec_pass_remaining(pv, toks0.skip(i as int + 1))
                        =~= remaining@.drop_last() + (seq![toks0[i as int]] + spec_pass_remaining(
                        pv,
                        toks0.skip(i as int + 1),
                    )));
                }
                i = i + 1;
            },
            Some((j, m)) => {
                proof {
                    lemma_find_match_some(pv, toks0[i as int].1@, spec_pass_next(rest));
                    assert(pv[j as int] == pass@[j as int].deep_view());
                }
                match m {
                    ArgMatch::Single(caps) => {
                        let ghost pre = inv.deep_view();
                        if pass[j].has_action {
                            let ghost errors0 = errors@;
                            match inv.act(&pass[j], true, &caps) {
                                Ok(()) => {},
                                Err(msg) => {
                                    let line = format_arg_error(
                                        working[i].1.as_str(),
                                        msg.as_str(),
                                    );
                                    errors.push(line);
                                    proof {
                                        assert(errors@ =~= errors0.push(errors@.last()));
                                        lemma_concat_views_push(errors0, errors@.last());
                                    }
                                },
                            }
                        }
                        i = i + 1;
                    },
                    ArgMatch::Split(caps) => {
                        proof {
                            assert(spec_match_arg(
                                pv[j as int],
                                toks0[i as int].1@,
                                spec_pass_next(rest),
                            ) is Split);
                            assert(spec_pass_next(rest) is Some);
                            assert(rest.len() >= 2);
                        }
                        if pass[j].has_action {
                            let ghost errors0 = errors@;
                            match inv.act(&pass[j], false, &caps) {
                                Ok(()) => {},
                                Err(msg) => {
                                    let line = format_arg_error(
                                        working[i].1.as_str(),
                                        msg.as_str(),
                                    );
                                    errors.push(line);
                                    proof {
                                        assert(errors@ =~= errors0.push(errors@.last()));
                                        lemma_concat_views_push(errors0, errors@.last());
                                    }
                                },
                            }
                        }
                        i = i + 2;
                    },
                    ArgMatch::MissingValue => {
                        proof {
                            assert(spec_match_arg(
                                pv[j as int],
                                toks0[i as int].1@,
                                spec_pass_next(rest),
                            ) is MissingValue);
                            assert(pv[j as int].split is Some);
                        }
                        let ghost errors0 = errors@;
                        let pattern = match &pass[j].split {
                            Some(p) => p.clone(),
                            None => String::new(),
                        };
                        let msg = missing_value_message(pattern.as_str());
                        let line = format_arg_error(working[i].1.as_str(), msg.as_str());
                        proof {
                            assert(line@ =~= spec_error_line(
                                toks0[i as int].1@,
                                spec_missing_msg(pv[j as int]),
                            ));
                        }
                        errors.push(line);
                        proof {
                            assert(errors@ =~= errors0.push(errors@.last()));
                            lemma_concat_views_push(errors0, errors@.last());
                            assert((spec_concat_views(errors0) + spec_error_line(
                                toks0[i as int].1@,
                                spec_missing_msg(pv[j as int]),
                            )) + spec_pass_report::<T>(inv.deep_view(), pv, toks0.skip(i as int + 1))
                                =~= spec_concat_views(errors0) + (spec_error_line(
                                toks0[i as int].1@,
                                spec_missing_msg(pv[j as int]),
                            ) + spec_pass_report::<T>(
                                inv.deep_view(),
                                pv,
                                toks0.skip(i as int + 1),
                            )));
                        }
                        i = i + 1;
                    },
                    ArgMatch::NoMatch => {
                        proof {
                            assert(false);
                        }
                        i = i + 1;
                    },
                }
            },
        }
    }
    proof {
        assert(toks0.skip(toks0.len() as int) =~= Seq::<(usize, String)>::empty());
        assert(remaining@ + Seq::<(usize, String)>::empty() =~= remaining@);
        assert(spec_concat_views(errors@) + Seq::<char>::empty() =~= spec_concat_views(errors@));
    }
    if errors.len() > 0 {
        let mut joined = String::new();
        let mut k: usize = 0;
        proof {
            assert(errors@.take(0) =~= Seq::<String>::empty());
            assert(joined@ =~= Seq::<char>::empty());
        }
        while k < errors.len()
            invariant
                k <= errors@.len(),
                joined@ == spec_concat_views(errors@.take(k as int)),
                spec_concat_views(errors@) == spec_pass_report::<T>(m0, pv, toks0),
                m0 == old(inv).deep_view(),
                pv == pass.deep_view(),
                toks0 == old(working)@,
                inv.deep_view() == spec_pass_fold::<T>(m0, pv, toks0),
                spec_pass_has_errors::<T>(m0, pv, toks0),
            decreases errors@.len() - k,
        {
            proof {
                assert(errors@.take(k as int + 1) =~= errors@.take(k as int).push(
                    errors@[k as int],
                ));
                lemma_concat_views_push(errors@.take(k as int), errors@[k as int]);
            }
            joined.append(errors[k].as_str());
            k = k + 1;
        }
        proof {
            assert(errors@.take(errors@.len() as int) =~= errors@);
        }
        Err(joined)
    } else {
        *working = remaining;
        Ok(())
    }
}

/// The initial working set of a raw argument vector: each token paired with
/// its index.
pub open spec fn spec_tokens_of(args: Seq<String>) -> Seq<(usize, String)> {
    Seq::new(args.len(), |i: int| (i as usize, args[i]))
}

/// The whole multi-pass run as a function of the invocation's model: each
/// pass offered by `spec_args` is matched against the working set; a pass
/// with errors aborts with its aggregated report; otherwise the state check
/// runs and may abort with its own message, unwrapped; consumed tokens are
/// permanently removed before the next pass; when no pass is offered the run
/// succeeds, tokens still left ignored.
pub open spec fn spec_process<T: ToolInvocation>(
    m: T::V,
    toks: Seq<(usize, String)>,
    iteration: usize,
) -> (Result<(), Seq<char>>, T::V)
    decreases usize::MAX - iteration,
{
    match T::spec_args(m, iteration as int) {
        None => (Ok(()), m),
        Some(pass) => if spec_pass_has_errors::<T>(m, pass, toks) {
            (Err(spec_pass_report::<T>(m, pass, toks)), spec_pass_fold::<T>(m, pass, toks))
        } else {
            let m1 = spec_pass_fold::<T>(m, pass, toks);
            if !T::spec_check_ok(m1, iteration as int) {
                (Err(T::spec_check_err(m1, iteration as int)), T::spec_checked(
                    m1,
                    iteration as int,
                ))
            } else {
                let m2 = T::spec_checked(m1, iteration as int);
                if iteration == usize::MAX {
                    (Err("argument passes did not terminate"@), m2)
                } else {
                    spec_process::<T>(m2, spec_pass_remaining(pass, toks), (iteration + 1) as usize)
                }
            }
        },
    }
}

/// Multi-pass processing of a raw argument vector against the passes that the
/// invocation offers, with batched per-pass error reporting; unmatched tokens
/// stay available to later passes, and tokens left after the last pass are
/// ignored. The run is exactly `spec_process` of the invocation's model: the
/// result and the final model are both pinned.
pub fn process_invocation_args<T: ToolInvocation>(invocation: &mut T, args: Vec<String>) -> (r:
    Result<(), String>)
    ensures
        final(invocation).deep_view() == spec_process::<T>(
            old(invocation).deep_view(),
            spec_tokens_of(args@),
            0,
        ).1,
        (match r {
            Ok(()) => spec_process::<T>(old(invocation).deep_view(), spec_tokens_of(args@), 0).0
                is Ok,
            Err(e) => spec_process::<T>(old(invocation).deep_view(), spec_tokens_of(args@), 0).0
                == Result::<(), Seq<char>>::Err(e@),
        }),
{
    let ghost m0 = old(invocation).deep_view();
    let ghost toks_all = spec_tokens_of(args@);
    let mut working: Vec<(usize, String)> = Vec::new();
    let mut i: usize = 0;
    while i < args.len()
        invariant
            i <= args@.len(),
            working@ =~= toks_all.take(i as int),
            toks_all == spec_tokens_of(args@),
        decreases args@.len() - i,
    {
        working.push((i, args[i].clone()));
        proof {
            assert(working@ =~= working@.drop_last().push((i, args@[i as int])));
            assert(toks_all.take(i as int + 1) =~= toks_all.take(i as int).push(
                toks_all[i as int],
            ));
        }
        i = i + 1;
    }
    proof {
        assert(toks_all.take(args@.len() as int) =~= toks_all);
    }
    let mut iteration: usize = 0;
    loop
        invariant
            m0 == old(invocation).deep_view(),
            toks_all == spec_tokens_of(args@),
            spec_process::<T>(m0, toks_all, 0) == spec_process::<T>(
                invocation.deep_view(),
                working@,
                iteration,
            ),
        decreases usize::MAX - iteration,
    {
        let pass = match invocation.args(iteration) {
            None => {
                return Ok(());
            },
            Some(pass) => pass,
        };
        let ghost pre = invocation.deep_view();
        match run_pass(invocation, &pass, &mut working) {
            Ok(()) => {},
            Err(e) => {
                return Err(e);
            },
        }
        match invocation.check_state(iteration) {
            Ok(()) => {},
            Err(e) => {
                return Err(e);
            },
        }
        if iteration == usize::MAX {
            return Err("argument passes did not terminate".to_owned());
        }
        iteration = iteration + 1;
    }
}

/// A subsequence: `xs` can be read off `ys` left to right.
pub open spec fn spec_is_subseq<A>(xs: Seq<A>, ys: Seq<A>) -> bool
    decreases ys.len(),
{
    if xs.len() == 0 {
        true
    } else if ys.len() == 0 {
        false
    } else if xs[0] == ys[0] {
        spec_is_subseq(xs.drop_first(), ys.drop_first())
    } else {
        spec_is_subseq(xs, ys.drop_first())
    }
}

proof fn lemma_subseq_drop_left<A>(xs: Seq<A>, ys: Seq<A>)
    requires
        spec_is_subseq(xs, ys),
        xs.len() > 0,
    ensures
        spec_is_subseq(xs.drop_first(), ys),
    decreases 2 * ys.len(),
{
    assert(ys =~= seq![ys[0]] + ys.drop_first());
    if xs[0] == ys[0] {
        lemma_subseq_cons_right(xs.drop_first(), ys[0], ys.drop_first());
    } else {
        lemma_subseq_drop_left(xs, ys.drop_first());
        lemma_subseq_cons_right(xs.drop_first(), ys[0], ys.drop_first());
    }
}

proof fn lemma_subseq_cons_right<A>(xs: Seq<A>, y: A, ys: Seq<A>)
    requires
        spec_is_subseq(xs, ys),
    ensures
        spec_is_subseq(xs, seq![y] + ys),
    decreases 2 * ys.len() + 1,
{
    let cons = seq![y] + ys;
    assert(cons.drop_first() =~= ys);
    if xs.len() == 0 {
    } else if xs[0] == y {
        lemma_subseq_drop_left(xs, ys);
    } else {
    }
}

proof fn lemma_subseq_len<A>(xs: Seq<A>, ys: Seq<A>)
    requires
        spec_is_subseq(xs, ys),
    ensures
        xs.len() <= ys.len(),
    decreases ys.len(),
{
    if xs.len() > 0 {
        if xs[0] == ys[0] {
            lemma_subseq_len(xs.drop_first(), ys.drop_first());
        } else {
            lemma_subseq_len(xs, ys.drop_first());
        }
    }
}

/// Law of the working set: a pass only ever removes tokens. What it leaves is
/// a subsequence of what it was given — unmatched tokens keep their relative
/// order into later passes — and the set shrinks strictly exactly when some
/// entry of the pass claimed some token.
pub proof fn lemma_pass_shrinks(pass: Seq<ToolArgView>, toks: Seq<(usize, String)>)
    ensures
        spec_is_subseq(spec_pass_remaining(pass, toks), toks),
        spec_pass_remaining(pass, toks).len() <= toks.len(),
        spec_pass_any_match(pass, toks) ==> spec_pass_remaining(pass, toks).len() < toks.len(),
        !spec_pass_any_match(pass, toks) ==> spec_pass_remaining(pass, toks) == toks,
    decreases toks.len(),
{
    if toks.len() == 0 {
        assert(spec_pass_remaining(pass, toks) =~= toks);
    } else {
        let rest = toks.drop_first();
        lemma_pass_shrinks(pass, rest);
        lemma_subseq_len(spec_pass_remaining(pass, rest), rest);
        match spec_find_match(pass, toks[0].1@, spec_pass_next(toks)) {
            None => {
                let tail = spec_pass_remaining(pass, rest);
                let whole = seq![toks[0]] + tail;
                assert(whole[0] == toks[0]);
                assert(whole.drop_first() =~= tail);
                assert(toks =~= seq![toks[0]] + rest);
                if !spec_pass_any_match(pass, rest) {
                    assert(whole =~= toks);
                }
            },
            Some(hit) => {
                match hit.1 {
                    ArgMatchSpec::Split(_) => {
                        if toks.len() >= 2 {
                            let rest2 = toks.skip(2);
                            assert(rest2 =~= rest.drop_first());
                            lemma_pass_shrinks(pass, rest2);
                            lemma_subseq_len(spec_pass_remaining(pass, rest2), rest2);
                            lemma_subseq_cons_right(
                                spec_pass_remaining(pass, rest2),
                                rest[0],
                                rest.drop_first(),
                            );
                            assert(rest =~= seq![rest[0]] + rest.drop_first());
                            lemma_subseq_cons_right(spec_pass_remaining(pass, rest2), toks[0], rest);
                            assert(toks =~= seq![toks[0]] + rest);
                        }
                    },
                    _ => {
                        lemma_subseq_cons_right(spec_pass_remaining(pass, rest), toks[0], rest);
                        assert(toks =~= seq![toks[0]] + rest);
                    },
                }
            },
        }
    }
}

/// Law of the split form: when only the split pattern of an entry claims the
/// final token — so no value token follows — the outcome is the
/// missing-argument report, never anything else.
pub proof fn lemma_split_needs_value(arg: ToolArgView, tok: Seq<char>)
    requires
        !spec_single_hit(arg, tok),
        spec_split_hit(arg, tok),
    ensures
        spec_match_arg(arg, tok, None) == ArgMatchSpec::MissingValue,
{
}

/// Law of the catch-all: an entry whose pattern claims the token keeps the
/// token from falling through the pass — at latest the last entry answers.
pub proof fn lemma_catch_all_finds(pass: Seq<ToolArgView>, tok: Seq<char>, next: Option<Seq<char>>)
    requires
        pass.len() > 0,
        !(spec_match_arg(pass.last(), tok, next) is NoMatch),
    ensures
        spec_find_match(pass, tok, next) is Some,
    decreases pass.len(),
{
    if pass.len() > 1 && spec_match_arg(pass[0], tok, next) is NoMatch {
        assert(pass.drop_first().last() == pass.last());
        lemma_catch_all_finds(pass.drop_first(), tok, next);
    }
}

/// Law of the catch-all, at the pass level: when the last entry of the pass
/// claims every token, no token survives the pass — each is consumed, and so
/// either dispatched or reported, never silently dropped.
pub proof fn lemma_catch_all_consumes_all(pass: Seq<ToolArgView>, toks: Seq<(usize, String)>)
    requires
        pass.len() > 0,
        forall|tok: Seq<char>, next: Option<Seq<char>>| !(#[trigger] spec_match_arg(
            pass.last(),
            tok,
            next,
        ) is NoMatch),
    ensures
        spec_pass_remaining(pass, toks) == Seq::<(usize, String)>::empty(),
    decreases toks.len(),
{
    if toks.len() > 0 {
        lemma_catch_all_finds(pass, toks[0].1@, spec_pass_next(toks));
        match spec_find_match(pass, toks[0].1@, spec_pass_next(toks)) {
            None => {},
            Some(hit) => match hit.1 {
                ArgMatchSpec::Split(_) => {
                    if toks.len() >= 2 {
                        lemma_catch_all_consumes_all(pass, toks.skip(2));
                    }
                },
                _ => {
                    lemma_catch_all_consumes_all(pass, toks.drop_first());
                },
            },
        }
    }
}

} // verus!
