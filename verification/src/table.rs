//! A declarative driver: plain ordered tables of (pattern, action) pairs,
//! slot-based state, and data-described cross-argument checks. It is a
//! verified implementation of `ToolInvocation`, so everything the argument
//! processor proves about a run holds of it outright; callers describe their
//! flag surface as data instead of writing a driver by hand.

use vstd::prelude::*;

verus! {

use crate::argproc::{Tool, ToolArg, ToolArgView, ToolInvocation};
use crate::command_queue::CommandQueue;
use crate::text;

/// What a matched argument does to the table's state.
#[derive(Debug)]
pub enum ArgAction {
    /// Store the capture — group `single_group` for the single form,
    /// `split_group` for the split form — into text slot `slot`.
    SetText { slot: usize, single_group: usize, split_group: usize },
    /// Append the capture (empty when the group is absent) to list slot
    /// `slot`.
    PushText { slot: usize, single_group: usize, split_group: usize },
    /// Raise boolean slot `slot`.
    SetFlag { slot: usize },
    /// Refuse the argument with this message.
    Reject { message: String },
}

/// The specification-level view of an `ArgAction`.
pub enum ArgActionView {
    SetText { slot: usize, single_group: usize, split_group: usize },
    PushText { slot: usize, single_group: usize, split_group: usize },
    SetFlag { slot: usize },
    Reject { message: Seq<char> },
}

impl DeepView for ArgAction {
    type V = ArgActionView;

    open spec fn deep_view(&self) -> ArgActionView {
        match self {
            ArgAction::SetText { slot, single_group, split_group } => ArgActionView::SetText {
                slot: *slot,
                single_group: *single_group,
                split_group: *split_group,
            },
            ArgAction::PushText { slot, single_group, split_group } => ArgActionView::PushText {
                slot: *slot,
                single_group: *single_group,
                split_group: *split_group,
            },
            ArgAction::SetFlag { slot } => ArgActionView::SetFlag { slot: *slot },
            ArgAction::Reject { message } => ArgActionView::Reject { message: message@ },
        }
    }
}

/// A cross-argument rule the state check enforces after each pass.
#[derive(Debug)]
pub enum StateCheck {
    /// Text slot `slot` must hold exactly `expected`.
    TextEquals { slot: usize, expected: String, message: String },
    /// List slot `slot` must not be empty.
    NonEmptyList { slot: usize, message: String },
}

/// The specification-level view of a `StateCheck`.
pub enum StateCheckView {
    TextEquals { slot: usize, expected: Seq<char>, message: Seq<char> },
    NonEmptyList { slot: usize, message: Seq<char> },
}

impl DeepView for StateCheck {
    type V = StateCheckView;

    open spec fn deep_view(&self) -> StateCheckView {
        match self {
            StateCheck::TextEquals { slot, expected, message } => StateCheckView::TextEquals {
                slot: *slot,
                expected: expected@,
                message: message@,
            },
            StateCheck::NonEmptyList { slot, message } => StateCheckView::NonEmptyList {
                slot: *slot,
                message: message@,
            },
        }
    }
}

/// The specification-level state of a `TableInvocation`.
pub struct TableModel {
    pub name: Seq<char>,
    pub passes: Seq<Seq<ToolArgView>>,
    pub actions: Seq<(Seq<char>, ArgActionView)>,
    pub checks: Seq<StateCheckView>,
    pub text_slots: Seq<Option<Seq<char>>>,
    pub list_slots: Seq<Seq<Seq<char>>>,
    pub flag_slots: Seq<bool>,
    pub inputs: Seq<Seq<char>>,
    pub output: Option<Seq<char>>,
}

/// A data-described invocation: pass tables, actions by argument name, state
/// checks, and the slots they fill.
#[derive(Debug)]
pub struct TableInvocation {
    pub name: String,
    passes: Vec<Vec<ToolArg>>,
    actions: Vec<(String, ArgAction)>,
    checks: Vec<StateCheck>,
    pub text_slots: Vec<Option<String>>,
    pub list_slots: Vec<Vec<String>>,
    pub flag_slots: Vec<bool>,
    pub inputs: Vec<String>,
    pub output: Option<String>,
}

impl DeepView for TableInvocation {
    type V = TableModel;

    closed spec fn deep_view(&self) -> TableModel {
        TableModel {
            name: self.name@,
            passes: self.passes.deep_view(),
            actions: self.actions.deep_view(),
            checks: self.checks.deep_view(),
            text_slots: self.text_slots.deep_view(),
            list_slots: self.list_slots.deep_view(),
            flag_slots: self.flag_slots.deep_view(),
            inputs: self.inputs.deep_view(),
            output: match self.output {
                Some(o) => Some(o@),
                None => None,
            },
        }
    }
}

/// The action bound to an argument name: first entry with that name wins.
pub open spec fn spec_action_of(actions: Seq<(Seq<char>, ArgActionView)>, name: Seq<char>)
    -> Option<ArgActionView>
    decreases actions.len(),
{
    if actions.len() == 0 {
        None
    } else if actions[0].0 == name {
        Some(actions[0].1)
    } else {
        spec_action_of(actions.drop_first(), name)
    }
}

/// The capture a group number selects, `None` when it is out of range or did
/// not participate.
pub open spec fn spec_capture(caps: Seq<Option<Seq<char>>>, g: int) -> Option<Seq<char>> {
    if 0 <= g < caps.len() {
        caps[g]
    } else {
        None
    }
}

/// Whether one rule accepts the model.
pub open spec fn spec_rule_ok(m: TableModel, rule: StateCheckView) -> bool {
    match rule {
        StateCheckView::TextEquals { slot, expected, .. } => slot < m.text_slots.len()
            && m.text_slots[slot as int] == Some(expected),
        StateCheckView::NonEmptyList { slot, .. } => slot < m.list_slots.len()
            && m.list_slots[slot as int].len() > 0,
    }
}

pub open spec fn spec_rules_ok(m: TableModel, rules: Seq<StateCheckView>) -> bool
    decreases rules.len(),
{
    if rules.len() == 0 {
        true
    } else {
        spec_rule_ok(m, rules[0]) && spec_rules_ok(m, rules.drop_first())
    }
}

/// The message of the first refusing rule.
pub open spec fn spec_first_rule_err(m: TableModel, rules: Seq<StateCheckView>) -> Seq<char>
    decreases rules.len(),
{
    if rules.len() == 0 {
        Seq::empty()
    } else if !spec_rule_ok(m, rules[0]) {
        match rules[0] {
            StateCheckView::TextEquals { message, .. } => message,
            StateCheckView::NonEmptyList { message, .. } => message,
        }
    } else {
        spec_first_rule_err(m, rules.drop_first())
    }
}

impl TableInvocation {
    /// A fresh table with the given pass tables, actions and rules, and
    /// empty slots of the given counts.
    pub fn new(
        name: String,
        passes: Vec<Vec<ToolArg>>,
        actions: Vec<(String, ArgAction)>,
        checks: Vec<StateCheck>,
        text_slots: usize,
        list_slots: usize,
        flag_slots: usize,
    ) -> (r: TableInvocation)
        ensures
            r.deep_view().name == name@,
            r.deep_view().passes == passes.deep_view(),
            r.deep_view().actions == actions.deep_view(),
            r.deep_view().checks == checks.deep_view(),
            r.deep_view().text_slots.len() == text_slots,
            forall|i: int| 0 <= i < text_slots ==> r.deep_view().text_slots[i] is None,
            r.deep_view().list_slots.len() == list_slots,
            forall|i: int| 0 <= i < list_slots ==> r.deep_view().list_slots[i]
                == Seq::<Seq<char>>::empty(),
            r.deep_view().flag_slots.len() == flag_slots,
            forall|i: int| 0 <= i < flag_slots ==> !r.deep_view().flag_slots[i],
            r.deep_view().inputs == Seq::<Seq<char>>::empty(),
            r.deep_view().output is None,
    {
        let mut texts: Vec<Option<String>> = Vec::new();
        let mut i: usize = 0;
        while i < text_slots
            invariant
                i <= text_slots,
                texts@.len() == i,
                forall|k: int| 0 <= k < i ==> texts@[k] is None,
            decreases text_slots - i,
        {
            texts.push(None);
            i = i + 1;
        }
        let mut lists: Vec<Vec<String>> = Vec::new();
        let mut i: usize = 0;
        while i < list_slots
            invariant
                i <= list_slots,
                lists@.len() == i,
                forall|k: int| 0 <= k < i ==> lists@[k]@ == Seq::<String>::empty(),
            decreases list_slots - i,
        {
            lists.push(Vec::new());
            i = i + 1;
        }
        let mut flags: Vec<bool> = Vec::new();
        let mut i: usize = 0;
        while i < flag_slots
            invariant
                i <= flag_slots,
                flags@.len() == i,
                forall|k: int| 0 <= k < i ==> !flags@[k],
            decreases flag_slots - i,
        {
            flags.push(false);
            i = i + 1;
        }
        let r = TableInvocation {
            name,
            passes,
            actions,
            checks,
            text_slots: texts,
            list_slots: lists,
            flag_slots: flags,
            inputs: Vec::new(),
            output: None,
        };
        proof {
            assert(r.deep_view().inputs =~= Seq::<Seq<char>>::empty());
            assert forall|i2: int| 0 <= i2 < list_slots implies r.deep_view().list_slots[i2]
                =~= Seq::<Seq<char>>::empty() by {}
        }
        r
    }

    fn clone_arg(arg: &ToolArg) -> (r: ToolArg)
        ensures
            r.deep_view() == arg.deep_view(),
    {
        ToolArg {
            name: arg.name.clone(),
            single: match &arg.single {
                Some(p) => Some(p.clone()),
                None => None,
            },
            split: match &arg.split {
                Some(p) => Some(p.clone()),
                None => None,
            },
            has_action: arg.has_action,
            help: match &arg.help {
                Some(h) => Some(h.clone()),
                None => None,
            },
        }
    }
}

impl Tool for TableInvocation {
    fn get_name(&self) -> String {
        self.name.clone()
    }

    fn add_tool_input(&mut self, input: String) -> Result<(), String> {
        self.inputs.push(input);
        Ok(())
    }

    fn get_output(&self) -> Option<String> {
        match &self.output {
            Some(o) => Some(o.clone()),
            None => None,
        }
    }

    fn override_output(&mut self, out: String) {
        self.output = Some(out);
    }

    /// A table queues nothing of its own: callers build their command queues
    /// from the slots it filled.
    fn enqueue_commands(&mut self, _queue: &mut CommandQueue<Self>) -> Result<(), String> {
        Ok(())
    }
}

impl ToolInvocation for TableInvocation {
    open spec fn spec_args(m: TableModel, iteration: int) -> Option<Seq<ToolArgView>> {
        if 0 <= iteration < m.passes.len() {
            Some(m.passes[iteration])
        } else {
            None
        }
    }

    open spec fn spec_act_ok(
        m: TableModel,
        arg: ToolArgView,
        is_single_form: bool,
        captures: Seq<Option<Seq<char>>>,
    ) -> bool {
        !(spec_action_of(m.actions, arg.name) matches Some(ArgActionView::Reject { .. }))
    }

    open spec fn spec_act_err(
        m: TableModel,
        arg: ToolArgView,
        is_single_form: bool,
        captures: Seq<Option<Seq<char>>>,
    ) -> Seq<char> {
        match spec_action_of(m.actions, arg.name) {
            Some(ArgActionView::Reject { message }) => message,
            _ => Seq::empty(),
        }
    }

    open spec fn spec_acted(
        m: TableModel,
        arg: ToolArgView,
        is_single_form: bool,
        captures: Seq<Option<Seq<char>>>,
    ) -> TableModel {
        match spec_action_of(m.actions, arg.name) {
            None => m,
            Some(a) => match a {
                ArgActionView::SetText { slot, single_group, split_group } => {
                    let g = if is_single_form {
                        single_group
                    } else {
                        split_group
                    };
                    if slot < m.text_slots.len() {
                        TableModel {
                            text_slots: m.text_slots.update(
                                slot as int,
                                spec_capture(captures, g as int),
                            ),
                            ..m
                        }
                    } else {
                        m
                    }
                },
                ArgActionView::PushText { slot, single_group, split_group } => {
                    let g = if is_single_form {
                        single_group
                    } else {
                        split_group
                    };
                    let v = match spec_capture(captures, g as int) {
                        Some(s) => s,
                        None => Seq::empty(),
                    };
                    if slot < m.list_slots.len() {
                        TableModel {
                            list_slots: m.list_slots.update(
                                slot as int,
                                m.list_slots[slot as int].push(v),
                            ),
                            ..m
                        }
                    } else {
                        m
                    }
                },
                ArgActionView::SetFlag { slot } => if slot < m.flag_slots.len() {
                    TableModel { flag_slots: m.flag_slots.update(slot as int, true), ..m }
                } else {
                    m
                },
                ArgActionView::Reject { .. } => m,
            },
        }
    }

    open spec fn spec_check_ok(m: TableModel, iteration: int) -> bool {
        spec_rules_ok(m, m.checks)
    }

    open spec fn spec_check_err(m: TableModel, iteration: int) -> Seq<char> {
        spec_first_rule_err(m, m.checks)
    }

    open spec fn spec_checked(m: TableModel, iteration: int) -> TableModel {
        m
    }

    fn check_state(&mut self, iteration: usize) -> (r: Result<(), String>) {
        let ghost m = self.deep_view();
        let mut i: usize = 0;
        proof {
            assert(m.checks.skip(0) =~= m.checks);
        }
        while i < self.checks.len()
            invariant
                i <= self.checks@.len(),
                m == self.deep_view(),
                forall|k: int| 0 <= k < i ==> spec_rule_ok(m, #[trigger] m.checks[k]),
                spec_rules_ok(m, m.checks) == spec_rules_ok(m, m.checks.skip(i as int)),
                spec_first_rule_err(m, m.checks) == spec_first_rule_err(
                    m,
                    m.checks.skip(i as int),
                ),
            decreases self.checks@.len() - i,
        {
            proof {
                assert(m.checks.skip(i as int)[0] == m.checks[i as int]);
                assert(m.checks.skip(i as int).drop_first() =~= m.checks.skip(i as int + 1));
                assert(m.checks[i as int] == self.checks@[i as int].deep_view());
            }
            let ok: bool = match &self.checks[i] {
                StateCheck::TextEquals { slot, expected, .. } => {
                    if *slot < self.text_slots.len() {
                        match &self.text_slots[*slot] {
                            Some(s) => text::str_eq(s.as_str(), expected.as_str()),
                            None => false,
                        }
                    } else {
                        false
                    }
                },
                StateCheck::NonEmptyList { slot, .. } => *slot < self.list_slots.len()
                    && self.list_slots[*slot].len() > 0,
            };
            if !ok {
                let message = match &self.checks[i] {
                    StateCheck::TextEquals { message, .. } => message.clone(),
                    StateCheck::NonEmptyList { message, .. } => message.clone(),
                };
                return Err(message);
            }
            i = i + 1;
        }
        proof {
            assert(m.checks.skip(m.checks.len() as int) =~= Seq::<StateCheckView>::empty());
        }
        Ok(())
    }

    fn args(&self, iteration: usize) -> (r: Option<Vec<ToolArg>>) {
        if iteration < self.passes.len() {
            let pass = &self.passes[iteration];
            let mut out: Vec<ToolArg> = Vec::new();
            let mut k: usize = 0;
            while k < pass.len()
                invariant
                    k <= pass@.len(),
                    out.deep_view() =~= pass.deep_view().take(k as int),
                decreases pass@.len() - k,
            {
                out.push(Self::clone_arg(&pass[k]));
                proof {
                    assert(out.deep_view() =~= out.deep_view().drop_last().push(
                        pass@[k as int].deep_view(),
                    ));
                    assert(pass.deep_view().take(k as int + 1) =~= pass.deep_view().take(
                        k as int,
                    ).push(pass.deep_view()[k as int]));
                }
                k = k + 1;
            }
            proof {
                assert(pass.deep_view().take(pass@.len() as int) =~= pass.deep_view());
                assert(self.deep_view().passes[iteration as int] == pass.deep_view());
            }
            Some(out)
        } else {
            None
        }
    }

    fn act(&mut self, arg: &ToolArg, is_single_form: bool, captures: &Vec<Option<String>>) -> (r:
        Result<(), String>) {
        let ghost m = self.deep_view();
        let mut i: usize = 0;
        let mut found: Option<usize> = None;
        proof {
            assert(m.actions.skip(0) =~= m.actions);
        }
        while i < self.actions.len()
            invariant_except_break
                found is None,
            invariant
                i <= self.actions@.len(),
                m == self.deep_view(),
                spec_action_of(m.actions, arg.deep_view().name) == spec_action_of(
                    m.actions.skip(i as int),
                    arg.deep_view().name,
                ),
            ensures
                i <= self.actions@.len(),
                m == self.deep_view(),
                (match found {
                    Some(j) => j < self.actions@.len() && spec_action_of(
                        m.actions,
                        arg.deep_view().name,
                    ) == Some(m.actions[j as int].1),
                    None => spec_action_of(m.actions, arg.deep_view().name) is None,
                }),
            decreases self.actions@.len() - i,
        {
            proof {
                assert(m.actions.skip(i as int)[0] == m.actions[i as int]);
                assert(m.actions.skip(i as int).drop_first() =~= m.actions.skip(i as int + 1));
                assert(m.actions[i as int] == self.actions@[i as int].deep_view());
            }
            if text::str_eq(self.actions[i].0.as_str(), arg.name.as_str()) {
                found = Some(i);
                break;
            }
            i = i + 1;
        }
        proof {
            if found is None {
                assert(m.actions.skip(m.actions.len() as int) =~= Seq::<
                    (Seq<char>, ArgActionView),
                >::empty());
            }
        }
        let j = match found {
            None => {
                proof {
                    assert(Self::spec_acted(m, arg.deep_view(), is_single_form, captures.deep_view())
                        == m);
                }
                return Ok(());
            },
            Some(j) => j,
        };
        let ghost av = m.actions[j as int].1;
        match &self.actions[j].1 {
            ArgAction::SetText { slot, single_group, split_group } => {
                let slot = *slot;
                let g = if is_single_form {
                    *single_group
                } else {
                    *split_group
                };
                let v: Option<String> = if g < captures.len() {
                    match &captures[g] {
                        Some(s) => Some(s.clone()),
                        None => None,
                    }
                } else {
                    None
                };
                proof {
                    assert((match v {
                        Some(s) => Some(s@),
                        None => None,
                    }) == spec_capture(captures.deep_view(), g as int));
                }
                if slot < self.text_slots.len() {
                    self.text_slots[slot] = v;
                    proof {
                        assert(self.deep_view().text_slots =~= m.text_slots.update(
                            slot as int,
                            spec_capture(captures.deep_view(), g as int),
                        ));
                        assert(self.deep_view() == Self::spec_acted(
                            m,
                            arg.deep_view(),
                            is_single_form,
                            captures.deep_view(),
                        ));
                    }
                }
                Ok(())
            },
            ArgAction::PushText { slot, single_group, split_group } => {
                let slot = *slot;
                let g = if is_single_form {
                    *single_group
                } else {
                    *split_group
                };
                let v: String = if g < captures.len() {
                    match &captures[g] {
                        Some(s) => s.clone(),
                        None => String::new(),
                    }
                } else {
                    String::new()
                };
                proof {
                    assert(v@ == Self::spec_acted_push_value(m, captures.deep_view(), g as int));
                }
                if slot < self.list_slots.len() {
                    self.list_slots[slot].push(v);
                    proof {
                        assert(self.list_slots@[slot as int].deep_view()
                            =~= m.list_slots[slot as int].push(
                            Self::spec_acted_push_value(m, captures.deep_view(), g as int),
                        ));
                        assert(self.deep_view().list_slots =~= m.list_slots.update(
                            slot as int,
                            m.list_slots[slot as int].push(
                                Self::spec_acted_push_value(m, captures.deep_view(), g as int),
                            ),
                        ));
                        assert(self.deep_view() == Self::spec_acted(
                            m,
                            arg.deep_view(),
                            is_single_form,
                            captures.deep_view(),
                        ));
                    }
                }
                Ok(())
            },
            ArgAction::SetFlag { slot } => {
                let slot = *slot;
                if slot < self.flag_slots.len() {
                    self.flag_slots[slot] = true;
                    proof {
                        assert(self.deep_view().flag_slots =~= m.flag_slots.update(
                            slot as int,
                            true,
                        ));
                        assert(self.deep_view() == Self::spec_acted(
                            m,
                            arg.deep_view(),
                            is_single_form,
                            captures.deep_view(),
                        ));
                    }
                }
                Ok(())
            },
            ArgAction::Reject { message } => Err(message.clone()),
        }
    }
}

impl TableInvocation {
    /// The text a `PushText` action appends for the selected group.
    pub open spec fn spec_acted_push_value(
        m: TableModel,
        captures: Seq<Option<Seq<char>>>,
        g: int,
    ) -> Seq<char> {
        match spec_capture(captures, g) {
            Some(s) => s,
            None => Seq::empty(),
        }
    }
}

} // verus!
