//! The navigation engine: the position in the command tree, the breadcrumb
//! path that leads there, and the form values of a selected leaf. Each input
//! event moves the engine and yields one action for the user interface.
//!
//! The position is never stored: it is found again from the root by
//! following the shortcuts of the breadcrumb path.

use vstd::prelude::*;
use crate::bindings::Shortcut;
use crate::commands::{
    display_of,
    find_child,
    find_in,
    lemma_find_in_shortcut,
    Command,
    CommandDisplay,
    CommandLeaf,
};
use crate::config::{Options, SpacerunConfig};
use crate::template::{
    dedup_into,
    first_unbound,
    lemma_substitute_undeclared,
    substitute,
    variable_names,
    CommandTask,
    CommandTaskReplaceValuesError,
    CommandTaskVariable,
};
use crate::variables::{entry_names, insert_entry, lemma_lookup_names, lookup, VariableValues};

verus! {

/// The text that a form field starts with: the default value, else nothing.
pub open spec fn default_text(v: CommandTaskVariable) -> Seq<char> {
    match v.default_value {
        Some(d) => d@,
        None => Seq::empty(),
    }
}

/// `acc` with each variable of `vars` bound in turn to its default text: a
/// name keeps the place of its first binding and the default of its last.
pub open spec fn form_from(
    acc: Seq<(Seq<char>, Seq<char>)>,
    vars: Seq<CommandTaskVariable>,
) -> Seq<(Seq<char>, Seq<char>)>
    decreases vars.len(),
{
    if vars.len() == 0 {
        acc
    } else {
        form_from(insert_entry(acc, vars[0].name@, default_text(vars[0])), vars.drop_first())
    }
}

/// The form of a newly selected leaf: one field per variable name, in the
/// order of first occurrence, holding the default of the last variable of
/// that name, or nothing.
pub open spec fn initial_form(vars: Seq<CommandTaskVariable>) -> Seq<(Seq<char>, Seq<char>)> {
    form_from(Seq::empty(), vars)
}

/// The field names of a leaf's form: its variable names, each once, in the
/// order of first occurrence.
pub open spec fn form_names(vars: Seq<CommandTaskVariable>) -> Seq<Seq<char>> {
    dedup_into(Seq::empty(), variable_names(vars))
}

/// Fills the form with one field per variable, each holding the variable's
/// default value or the empty text; a later variable of the same name
/// overrides an earlier one. What the form held before is dropped.
pub fn init_variables_form_input(
    form_command_task_variables: &mut VariableValues,
    variables: &[CommandTaskVariable],
)
    ensures
        final(form_command_task_variables)@ == initial_form(variables@),
        entry_names(final(form_command_task_variables)@) == form_names(variables@),
{
    let mut form = VariableValues::new();
    let mut i: usize = 0;
    proof {
        assert(variables@.subrange(0, variables@.len() as int) =~= variables@);
        assert(entry_names(form@) =~= Seq::<Seq<char>>::empty());
    }
    while i < variables.len()
        invariant
            i <= variables@.len(),
            form_from(form@, variables@.subrange(i as int, variables@.len() as int))
                == initial_form(variables@),
            dedup_into(
                entry_names(form@),
                variable_names(variables@.subrange(i as int, variables@.len() as int)),
            ) == form_names(variables@),
        decreases variables@.len() - i,
    {
        let variable = &variables[i];
        let ghost rest = variables@.subrange(i as int, variables@.len() as int);
        let ghost before = form@;
        proof {
            assert(rest[0] == variables@[i as int]);
            assert(rest.drop_first() =~= variables@.subrange(i + 1, variables@.len() as int));
            assert(variable_names(rest)[0] == variable.name@);
            assert(variable_names(rest).drop_first() =~= variable_names(rest.drop_first()));
            lemma_lookup_names(before, variable.name@);
        }
        let text = match &variable.default_value {
            Some(d) => d.clone(),
            None => String::new(),
        };
        form.insert(variable.name.clone(), text);
        i = i + 1;
    }
    proof {
        assert(variables@.subrange(i as int, variables@.len() as int) =~= Seq::<
            CommandTaskVariable,
        >::empty());
        assert(variable_names(Seq::<CommandTaskVariable>::empty()) =~= Seq::<Seq<char>>::empty());
    }
    *form_command_task_variables = form;
}

/// An input event, as the user interface translates it.
#[derive(Debug, Clone, PartialEq, Eq)]
pub enum NavigationEvent {
    /// A key chord was pressed.
    Press(Shortcut),
    /// Go back one level.
    Back,
    /// Run the selected leaf with the values of its form.
    Confirm,
    /// Leave the launcher.
    Quit,
    /// The window lost the input focus.
    FocusLost,
    /// A form field was edited: its name and new text.
    SetVariable(String, String),
}

/// What the user interface is asked to do after an event.
#[derive(Debug, Clone, PartialEq, Eq)]
pub enum NavigationAction {
    /// Nothing changed.
    Nothing,
    /// The engine moved one level down.
    Descend,
    /// The engine moved one level up.
    Backtrack,
    /// Run this command in a shell.
    Execute(String),
    /// The selected command could not be completed.
    TemplateError(CommandTaskReplaceValuesError),
    /// Close the launcher.
    CloseApplication,
    /// Take the input focus back.
    KeepFocus,
    /// A form field changed.
    FormUpdated,
}

/// An event, with texts as character sequences.
pub enum EventView {
    Press(Shortcut),
    Back,
    Confirm,
    Quit,
    FocusLost,
    SetVariable(Seq<char>, Seq<char>),
}

/// An action, with texts as character sequences; a failed completion
/// carries the name of the variable without a value.
pub enum ActionView {
    Nothing,
    Descend,
    Backtrack,
    Execute(Seq<char>),
    TemplateError(Seq<char>),
    CloseApplication,
    KeepFocus,
    FormUpdated,
}

impl View for NavigationEvent {
    type V = EventView;

    open spec fn view(&self) -> EventView {
        match self {
            NavigationEvent::Press(sc) => EventView::Press(*sc),
            NavigationEvent::Back => EventView::Back,
            NavigationEvent::Confirm => EventView::Confirm,
            NavigationEvent::Quit => EventView::Quit,
            NavigationEvent::FocusLost => EventView::FocusLost,
            NavigationEvent::SetVariable(name, value) => EventView::SetVariable(name@, value@),
        }
    }
}

impl View for NavigationAction {
    type V = ActionView;

    open spec fn view(&self) -> ActionView {
        match self {
            NavigationAction::Nothing => ActionView::Nothing,
            NavigationAction::Descend => ActionView::Descend,
            NavigationAction::Backtrack => ActionView::Backtrack,
            NavigationAction::Execute(s) => ActionView::Execute(s@),
            NavigationAction::TemplateError(e) => ActionView::TemplateError(e.variable@),
            NavigationAction::CloseApplication => ActionView::CloseApplication,
            NavigationAction::KeepFocus => ActionView::KeepFocus,
            NavigationAction::FormUpdated => ActionView::FormUpdated,
        }
    }
}

/// The engine's state: the tree's root, the breadcrumbs (shortcut and name
/// of each entry from the root's child down to the position) and the form.
pub struct NavigationView {
    pub root: Command,
    pub path: Seq<(Shortcut, Seq<char>)>,
    pub form: Seq<(Seq<char>, Seq<char>)>,
}

/// The shortcuts of a breadcrumb path.
pub open spec fn path_shortcuts(path: Seq<(Shortcut, Seq<char>)>) -> Seq<Shortcut> {
    path.map_values(|c: (Shortcut, Seq<char>)| c.0)
}

/// The entry reached from `root` by pressing the shortcuts `scs` in turn.
pub open spec fn replay(root: Command, scs: Seq<Shortcut>) -> Option<Command>
    decreases scs.len(),
{
    if scs.len() == 0 {
        Some(root)
    } else {
        match replay(root, scs.drop_last()) {
            Some(c) => find_child(c, scs.last()),
            None => None,
        }
    }
}

/// The current position: the entry that the breadcrumbs lead to, or the
/// root where they lead nowhere.
pub open spec fn selected(v: NavigationView) -> Command {
    match replay(v.root, path_shortcuts(v.path)) {
        Some(c) => c,
        None => v.root,
    }
}

/// The breadcrumb at `i` shows the entry that the breadcrumbs up to it lead
/// to.
pub open spec fn crumb_matches(v: NavigationView, i: int) -> bool {
    match replay(v.root, path_shortcuts(v.path).subrange(0, i + 1)) {
        Some(c) => v.path[i] == display_of(c),
        None => false,
    }
}

/// The breadcrumbs lead somewhere, and each shows the entry it leads to.
pub open spec fn navigation_wf(v: NavigationView) -> bool {
    &&& replay(v.root, path_shortcuts(v.path)) is Some
    &&& forall|i: int| 0 <= i < v.path.len() ==> #[trigger] crumb_matches(v, i)
}

/// The outcome of running a task with a form.
pub open spec fn run_task(task: CommandTask, form: Seq<(Seq<char>, Seq<char>)>) -> ActionView {
    match first_unbound(variable_names(task.variables@), form) {
        None => ActionView::Execute(substitute(task.base@, variable_names(task.variables@), form)),
        Some(missing) => ActionView::TemplateError(missing),
    }
}

/// The engine after descending to `child`.
pub open spec fn descend(
    v: NavigationView,
    child: Command,
    form: Seq<(Seq<char>, Seq<char>)>,
) -> NavigationView {
    NavigationView { root: v.root, path: v.path.push(display_of(child)), form }
}

/// Pressing `sc`: at a node, a child node is entered; a leaf without
/// variables is run at once; a leaf with variables is entered with a fresh
/// form. Anything else is ignored.
pub open spec fn press(v: NavigationView, sc: Shortcut) -> (NavigationView, ActionView) {
    match selected(v) {
        Command::Node(n) => match find_in(n.children@, sc) {
            Some(child) => match child {
                Command::Node(_) => (descend(v, child, v.form), ActionView::Descend),
                Command::Leaf(l) => if l.cmd.variables@.len() == 0 {
                    (v, ActionView::Execute(l.cmd.base@))
                } else {
                    (descend(v, child, initial_form(l.cmd.variables@)), ActionView::Descend)
                },
            },
            None => (v, ActionView::Nothing),
        },
        Command::Leaf(_) => (v, ActionView::Nothing),
    }
}

/// The engine's transition on one event.
pub open spec fn step(v: NavigationView, e: EventView) -> (NavigationView, ActionView) {
    match e {
        EventView::Press(sc) => press(v, sc),
        EventView::Back => if v.path.len() == 0 {
            (v, ActionView::CloseApplication)
        } else {
            (NavigationView { root: v.root, path: v.path.drop_last(), form: v.form }, ActionView::Backtrack)
        },
        EventView::Confirm => match selected(v) {
            Command::Leaf(l) => (v, run_task(l.cmd, v.form)),
            Command::Node(_) => (v, ActionView::Nothing),
        },
        EventView::Quit => (v, ActionView::CloseApplication),
        EventView::FocusLost => (v, ActionView::KeepFocus),
        EventView::SetVariable(name, value) => if selected(v) is Leaf && lookup(v.form, name) is Some {
            (NavigationView { root: v.root, path: v.path, form: insert_entry(v.form, name, value) }, ActionView::FormUpdated)
        } else {
            (v, ActionView::Nothing)
        },
    }
}

/// The form that a position starts with: a fresh form at a leaf, none at a
/// node.
pub open spec fn fresh_form(c: Command) -> Seq<(Seq<char>, Seq<char>)> {
    match c {
        Command::Leaf(l) => initial_form(l.cmd.variables@),
        Command::Node(_) => Seq::empty(),
    }
}

/// At a leaf the form has one field per variable name of that leaf.
pub open spec fn form_fits(v: NavigationView) -> bool {
    match selected(v) {
        Command::Leaf(l) => entry_names(v.form) == form_names(l.cmd.variables@),
        Command::Node(_) => true,
    }
}

/// The engine's state at startup: at the root, or at the root's child bound
/// to the initial shortcut if there is one, with a fresh form where that
/// position is a leaf.
pub open spec fn initial_view(root: Command, initial: Option<Shortcut>) -> NavigationView {
    let start = NavigationView { root, path: Seq::empty(), form: fresh_form(root) };
    match initial {
        Some(sc) => match find_child(root, sc) {
            Some(child) => descend(start, child, fresh_form(child)),
            None => start,
        },
        None => start,
    }
}

/// The launcher's state.
pub struct State {
    pub config: SpacerunConfig,
    pub selection_path: Vec<CommandDisplay>,
    pub form_command_task_variables: VariableValues,
    pub options: Options,
}

impl View for State {
    type V = NavigationView;

    open spec fn view(&self) -> NavigationView {
        NavigationView {
            root: self.config.commands,
            path: self.selection_path@.map_values(|d: CommandDisplay| d@),
            form: self.form_command_task_variables@,
        }
    }
}

proof fn lemma_replay_prefix_none(root: Command, scs: Seq<Shortcut>, i: int)
    requires
        0 <= i <= scs.len(),
        replay(root, scs.subrange(0, i)) is None,
    ensures
        replay(root, scs) is None,
    decreases scs.len(),
{
    if i == scs.len() {
        assert(scs.subrange(0, i) =~= scs);
    } else {
        assert(scs.drop_last().subrange(0, i) =~= scs.subrange(0, i));
        lemma_replay_prefix_none(root, scs.drop_last(), i);
    }
}

proof fn lemma_replay_step(root: Command, scs: Seq<Shortcut>, i: int)
    requires
        0 <= i < scs.len(),
    ensures
        replay(root, scs.subrange(0, i + 1)) == match replay(root, scs.subrange(0, i)) {
            Some(c) => find_child(c, scs[i]),
            None => None,
        },
{
    assert(scs.subrange(0, i + 1).drop_last() =~= scs.subrange(0, i));
}

/// Descending to a child found at the current position keeps the
/// breadcrumbs well formed.
proof fn lemma_wf_descend(
    v: NavigationView,
    sc: Shortcut,
    child: Command,
    form: Seq<(Seq<char>, Seq<char>)>,
)
    requires
        navigation_wf(v),
        find_child(selected(v), sc) == Some(child),
    ensures
        navigation_wf(descend(v, child, form)),
        selected(descend(v, child, form)) == child,
{
    let w = descend(v, child, form);
    let scs = path_shortcuts(v.path);
    let scs2 = path_shortcuts(w.path);
    lemma_find_in_shortcut(
        match selected(v) {
            Command::Node(n) => n.children@,
            Command::Leaf(_) => Seq::empty(),
        },
        sc,
    );
    assert(child.spec_shortcut() == sc);
    assert(scs2 =~= scs.push(sc));
    assert(scs2.drop_last() =~= scs);
    assert(replay(v.root, scs2) == Some(child));
    assert forall|i: int| 0 <= i < w.path.len() implies #[trigger] crumb_matches(w, i) by {
        if i < v.path.len() {
            assert(scs2.subrange(0, i + 1) =~= scs.subrange(0, i + 1));
            assert(w.path[i] == v.path[i]);
            assert(crumb_matches(v, i));
        } else {
            assert(scs2.subrange(0, i + 1) =~= scs2);
        }
    }
}

/// Going back one level keeps the breadcrumbs well formed.
proof fn lemma_wf_back(v: NavigationView)
    requires
        navigation_wf(v),
        v.path.len() > 0,
    ensures
        navigation_wf(NavigationView { root: v.root, path: v.path.drop_last(), form: v.form }),
        selected(NavigationView { root: v.root, path: v.path.drop_last(), form: v.form }) is Node,
{
    let w = NavigationView { root: v.root, path: v.path.drop_last(), form: v.form };
    let scs = path_shortcuts(v.path);
    let scs2 = path_shortcuts(w.path);
    assert(scs2 =~= scs.drop_last());
    assert(replay(v.root, scs2) matches Some(c) && find_child(c, scs.last()) is Some);
    assert forall|i: int| 0 <= i < w.path.len() implies #[trigger] crumb_matches(w, i) by {
        assert(scs2.subrange(0, i + 1) =~= scs.subrange(0, i + 1));
        assert(w.path[i] == v.path[i]);
        assert(crumb_matches(v, i));
    }
}

impl State {
    /// The breadcrumbs lead somewhere, each shows the entry it leads to, and
    /// at a leaf the form has one field per variable name of that leaf.
    pub open spec fn wf(&self) -> bool {
        navigation_wf(self@) && form_fits(self@)
    }

    /// The current position, found again from the root by following the
    /// breadcrumbs; the root where they lead nowhere.
    pub fn selected_command(&self) -> (r: &Command)
        ensures
            *r == selected(self@),
    {
        let root = &self.config.commands;
        let ghost scs = path_shortcuts(self@.path);
        let mut acc = root;
        let mut i: usize = 0;
        proof {
            assert(scs.subrange(0, 0) =~= Seq::<Shortcut>::empty());
        }
        while i < self.selection_path.len()
            invariant
                i <= self.selection_path@.len(),
                scs == path_shortcuts(self@.path),
                scs.len() == self.selection_path@.len(),
                root == &self.config.commands,
                replay(*root, scs.subrange(0, i as int)) == Some(*acc),
            decreases self.selection_path@.len() - i,
        {
            proof {
                lemma_replay_step(*root, scs, i as int);
                assert(scs[i as int] == self.selection_path@[i as int].shortcut);
            }
            match acc.find_child_for_shortcut(&self.selection_path[i].shortcut) {
                Some(child) => {
                    acc = child;
                },
                None => {
                    proof {
                        lemma_replay_prefix_none(*root, scs, i + 1);
                    }
                    return root;
                },
            }
            i = i + 1;
        }
        proof {
            assert(scs.subrange(0, i as int) =~= scs);
        }
        acc
    }
}

impl State {
    /// The launcher at startup: at the root of the configured tree, or at the
    /// root's child bound to the initial shortcut if the options give one and
    /// such a child exists.
    pub fn new(config: SpacerunConfig, options: Options) -> (r: State)
        ensures
            r@ == initial_view(config.commands, options.initial_shortcut),
            r.wf(),
            r.config == config,
            r.options == options,
    {
        let mut path: Vec<CommandDisplay> = Vec::new();
        let mut form = VariableValues::new();
        let ghost root = config.commands;
        let ghost start = NavigationView { root, path: Seq::empty(), form: fresh_form(root) };
        proof {
            assert(path_shortcuts(start.path) =~= Seq::<Shortcut>::empty());
            assert(selected(start) == root);
            assert(form@ =~= Seq::<(Seq<char>, Seq<char>)>::empty());
        }
        match options.initial_shortcut {
            Some(sc) => match config.commands.find_child_for_shortcut(&sc) {
                Some(child) => {
                    path.push(CommandDisplay::from(child));
                    match child {
                        Command::Leaf(l) => {
                            init_variables_form_input(&mut form, l.cmd.variables.as_slice());
                        },
                        Command::Node(_) => {},
                    }
                    proof {
                        lemma_wf_descend(start, sc, *child, form@);
                    }
                },
                None => {},
            },
            None => {},
        }
        if path.len() == 0 {
            match &config.commands {
                Command::Leaf(l) => {
                    init_variables_form_input(&mut form, l.cmd.variables.as_slice());
                },
                Command::Node(_) => {},
            }
        }
        let r = State { config, selection_path: path, form_command_task_variables: form, options };
        proof {
            assert(r@.path =~= initial_view(root, options.initial_shortcut).path);
            assert(r@.form =~= initial_view(root, options.initial_shortcut).form);
        }
        r
    }

    fn press_shortcut(&mut self, sc: Shortcut) -> (r: NavigationAction)
        ensures
            old(self).wf() ==> final(self).wf(),
            (final(self)@, r@) == press(old(self)@, sc),
            final(self).config == old(self).config,
            final(self).options == old(self).options,
    {
        let ghost v = self@;
        let mut crumb: Option<CommandDisplay> = None;
        let mut new_form: Option<VariableValues> = None;
        let mut action = NavigationAction::Nothing;
        let cur = self.selected_command();
        match cur {
            Command::Node(_) => match cur.find_child_for_shortcut(&sc) {
                Some(child) => match child {
                    Command::Node(_) => {
                        crumb = Some(CommandDisplay::from(child));
                        action = NavigationAction::Descend;
                        proof {
                            if navigation_wf(v) {
                                lemma_wf_descend(v, sc, *child, v.form);
                            }
                        }
                    },
                    Command::Leaf(l) => {
                        if l.cmd.variables.len() == 0 {
                            proof {
                                assert(variable_names(l.cmd.variables@) =~= Seq::<
                                    Seq<char>,
                                >::empty());
                                lemma_substitute_undeclared(l.cmd.base@, 0, Seq::empty());
                                assert(l.cmd.base@.subrange(0, l.cmd.base@.len() as int)
                                    =~= l.cmd.base@);
                            }
                            action =
                            match l.cmd.to_executable_string(&VariableValues::new()) {
                                Ok(command) => NavigationAction::Execute(command),
                                Err(e) => NavigationAction::TemplateError(e),
                            };
                        } else {
                            crumb = Some(CommandDisplay::from(child));
                            let mut form = VariableValues::new();
                            init_variables_form_input(&mut form, l.cmd.variables.as_slice());
                            proof {
                                if navigation_wf(v) {
                                    lemma_wf_descend(v, sc, *child, form@);
                                }
                            }
                            new_form = Some(form);
                            action = NavigationAction::Descend;
                        }
                    },
                },
                None => {},
            },
            Command::Leaf(_) => {},
        }
        match crumb {
            Some(d) => {
                let ghost before = self.selection_path@;
                self.selection_path.push(d);
                proof {
                    assert(self.selection_path@.map_values(|d: CommandDisplay| d@) =~= before.map_values(
                        |d: CommandDisplay| d@,
                    ).push(d@));
                }
            },
            None => {},
        }
        match new_form {
            Some(form) => {
                self.form_command_task_variables = form;
            },
            None => {},
        }
        action
    }

    /// Applies one input event and says what the user interface should do.
    /// See `step` for each event.
    pub fn handle_event(&mut self, event: NavigationEvent) -> (r: NavigationAction)
        ensures
            old(self).wf() ==> final(self).wf(),
            (final(self)@, r@) == step(old(self)@, event@),
            final(self).config == old(self).config,
            final(self).options == old(self).options,
    {
        let ghost v = self@;
        match event {
            NavigationEvent::Press(sc) => self.press_shortcut(sc),
            NavigationEvent::Back => {
                if self.selection_path.len() == 0 {
                    NavigationAction::CloseApplication
                } else {
                    let ghost before = self.selection_path@;
                    self.selection_path.pop();
                    proof {
                        if navigation_wf(v) {
                            lemma_wf_back(v);
                        }
                        assert(self.selection_path@.map_values(|d: CommandDisplay| d@) =~= before.map_values(
                            |d: CommandDisplay| d@,
                        ).drop_last());
                    }
                    NavigationAction::Backtrack
                }
            },
            NavigationEvent::Confirm => match self.selected_command() {
                Command::Leaf(l) => match l.cmd.to_executable_string(
                    &self.form_command_task_variables,
                ) {
                    Ok(command) => NavigationAction::Execute(command),
                    Err(e) => NavigationAction::TemplateError(e),
                },
                Command::Node(_) => NavigationAction::Nothing,
            },
            NavigationEvent::Quit => NavigationAction::CloseApplication,
            NavigationEvent::FocusLost => NavigationAction::KeepFocus,
            NavigationEvent::SetVariable(name, value) => {
                let at_leaf = match self.selected_command() {
                    Command::Leaf(_) => true,
                    Command::Node(_) => false,
                };
                if at_leaf && self.form_command_task_variables.get(&name).is_some() {
                    self.form_command_task_variables.insert(name, value);
                    proof {
                        if navigation_wf(v) {
                            assert forall|i: int|
                                0 <= i < self@.path.len() implies #[trigger] crumb_matches(
                                self@,
                                i,
                            ) by {
                                assert(crumb_matches(v, i));
                            }
                        }
                    }
                    NavigationAction::FormUpdated
                } else {
                    NavigationAction::Nothing
                }
            },
        }
    }
}

/// Pressing, at a node, the shortcut of a child leaf without variables runs
/// that leaf's command as written, at once: no form is shown and the engine
/// stays where it is.
pub proof fn lemma_plain_leaf_runs_at_once(v: NavigationView, sc: Shortcut, leaf: CommandLeaf)
    requires
        find_child(selected(v), sc) == Some(Command::Leaf(leaf)),
        leaf.cmd.variables@.len() == 0,
    ensures
        step(v, EventView::Press(sc)) == (v, ActionView::Execute(leaf.cmd.base@)),
{
}

/// Going back after descending returns to the same root and breadcrumbs,
/// and the descent started at a node.
pub proof fn lemma_descend_then_back(v: NavigationView, sc: Shortcut)
    requires
        step(v, EventView::Press(sc)).1 is Descend,
    ensures
        selected(v) is Node,
        step(step(v, EventView::Press(sc)).0, EventView::Back).1 is Backtrack,
        step(step(v, EventView::Press(sc)).0, EventView::Back).0.root == v.root,
        step(step(v, EventView::Press(sc)).0, EventView::Back).0.path == v.path,
{
    let w = step(v, EventView::Press(sc)).0;
    assert(w.path.drop_last() =~= v.path);
}

} // verus!
