//! The input screen: the destination, the workflow and its inputs, which
//! of them has the focus, and what saving, moving and submitting do.
use vstd::prelude::*;

use crate::cli::TerminalApplication;
use crate::field::{
    FieldControl, LoadState, cleared, defines, field_navigated, field_picked, loaded_with, missing, prepared, retried, saved_value,
    InputField, SaveOutcome,
};
use crate::input::{candidate_lines, decode_candidates, string_views, InputDefinition};
use crate::display::{compact_text, compact_value, empty_value};
use crate::target::{status_text, TerminalTargetUpdate};
use crate::text::{chars_of, lines_of, push_all, string_from_chars};
use crate::select::{select_navigated, NavigationDirection};
use crate::target::{tree_changed, TerminalTargetSelector};
use crate::tree_select::{moved, navigated};
use crate::template::Values;
use crate::workflow::Workflow;
use crate::editing::{edits_text, query_edit, query_edit_for, text_edit, text_edit_for};
use crate::editor::{apply_edit, edit_made, editor_text, text_of};
use promkit::widgets::text_editor::TextEditor;
use std::collections::HashSet;
use crate::workflow_selector::{saves, SaveStep, WorkflowSelector};

verus! {

/// What has the focus: the destination, the workflow, or an input.
#[derive(Clone, Copy, Debug, PartialEq, Eq, Structural)]
pub enum Focus {
    Target,
    Workflow,
    Field(usize),
}

/// The page shown.
#[derive(Clone, Copy, Debug, PartialEq, Eq, Structural)]
pub enum Page {
    Input,
    Help,
}

/// What the screen asks of its runner after an event.
#[derive(Clone, Copy, Debug, PartialEq, Eq, Structural)]
pub enum ScreenAction {
    Redraw,
    Submit,
    Cancel,
}

/// A key press, as the screen tells keys apart.
#[derive(Clone, Copy, Debug, PartialEq, Eq, Structural)]
pub enum Key {
    /// A character, typed plainly or with Shift.
    Char(char),
    /// A character typed with Control.
    Control(char),
    /// A character typed with Alt.
    Alt(char),
    Left,
    Right,
    Backspace,
    Delete,
    Enter,
    ControlEnter,
    Esc,
    Tab,
    BackTab,
    Up,
    Down,
    /// Any other key.
    Other,
}

/// Where a click landed.
#[derive(Clone, Copy, Debug, PartialEq, Eq, Structural)]
pub enum Click {
    TargetValue,
    TargetEditor,
    /// A row of the destination tree's viewport.
    TargetCandidate(usize),
    WorkflowValue,
    WorkflowEditor,
    /// A row of the workflow list.
    WorkflowCandidate(usize),
    /// A row of the input list.
    FieldRow(usize),
    FieldEditor,
    /// A row of the focused input's candidates.
    FieldCandidate(usize),
    Elsewhere,
}

/// What the runner does after a click.
#[derive(Clone, Copy, Debug, PartialEq, Eq, Structural)]
pub enum ClickOutcome {
    Redraw,
    /// Move the destination query editor's cursor to the click.
    MoveTargetCursor,
    /// Move the workflow query editor's cursor to the click.
    MoveWorkflowCursor,
    /// Move the cursor of this input's editor to the click.
    MoveFieldCursor(usize),
}

/// What the runner does after a key.
#[derive(Clone, Copy, Debug, PartialEq, Eq, Structural)]
pub enum KeyOutcome {
    /// Draw the screen again.
    Redraw,
    /// Hand over what was entered.
    Submit,
    /// Leave without submitting.
    Cancel,
    /// Ask for the panes to be listed again now.
    RequestRefresh,
    /// Let the destination query editor take the key.
    EditTarget,
    /// Let the workflow query editor take the key.
    EditWorkflow,
    /// Let the editor of this input take the key.
    EditField(usize),
}

/// The focus after moving forward through `n` inputs: destination,
/// workflow, each input, and round again.
pub open spec fn next_focus(f: Focus, n: nat) -> Focus {
    match f {
        Focus::Target => Focus::Workflow,
        Focus::Workflow => if n == 0 {
            Focus::Target
        } else {
            Focus::Field(0)
        },
        Focus::Field(i) => if i + 1 < n {
            Focus::Field((i + 1) as usize)
        } else {
            Focus::Target
        },
    }
}

/// The focus after moving back.
pub open spec fn previous_focus(f: Focus, n: nat) -> Focus {
    match f {
        Focus::Target => if n == 0 {
            Focus::Workflow
        } else {
            Focus::Field((n - 1) as usize)
        },
        Focus::Workflow => Focus::Target,
        Focus::Field(i) => if i == 0 {
            Focus::Workflow
        } else {
            Focus::Field((i - 1) as usize)
        },
    }
}

/// The focus names something there is: an input focused is one of the `n`.
pub open spec fn valid_focus(f: Focus, n: nat) -> bool {
    match f {
        Focus::Field(i) => i < n,
        _ => true,
    }
}

/// The saved values of the first `k` inputs, by name.
pub open spec fn saved_map(fields: Seq<InputField>, k: int) -> Map<Seq<char>, Seq<char>>
    decreases k,
{
    if k <= 0 {
        Map::empty()
    } else {
        let rest = saved_map(fields, k - 1);
        match fields[k - 1].value_view() {
            Some(v) => rest.insert(fields[k - 1].name_view(), v),
            None => rest,
        }
    }
}

/// An input can be submitted: it has a value or may stay empty.
pub open spec fn can_submit(f: InputField) -> bool {
    f.value_view() is Some || f.allow_empty_view()
}

/// The first input at or after `from` that blocks submitting.
pub open spec fn first_blocking(fields: Seq<InputField>, from: int) -> Option<int>
    decreases fields.len() - from,
{
    if from < 0 || from >= fields.len() {
        None
    } else if !can_submit(fields[from]) {
        Some(from)
    } else {
        first_blocking(fields, from + 1)
    }
}

/// Whether an input waits for one of `names`.
pub open spec fn waits_for_any(f: InputField, names: Seq<Seq<char>>) -> bool {
    exists|m: int| 0 <= m < names.len() && f.dependencies().contains(#[trigger] names[m])
}

/// The names invalidated by a change of `changed`, after the first `k`
/// inputs are looked at in order: the changed name, and each input that
/// waits for one of the names before it.
pub open spec fn invalidated_names(fields: Seq<InputField>, changed: Seq<char>, k: int) -> Seq<Seq<char>>
    decreases k,
{
    if k <= 0 {
        seq![changed]
    } else {
        let before = invalidated_names(fields, changed, k - 1);
        if waits_for_any(fields[k - 1], before) {
            before.push(fields[k - 1].name_view())
        } else {
            before
        }
    }
}

/// Input `k` is invalidated by a change of `changed`: it waits for the
/// changed input or for an input before it that is invalidated.
pub open spec fn invalidated(fields: Seq<InputField>, changed: Seq<char>, k: int) -> bool {
    waits_for_any(fields[k], invalidated_names(fields, changed, k))
}

/// A candidate command that runs for an input.
#[derive(Clone, Copy)]
pub struct RunningTask {
    pub id: u64,
    pub field: usize,
}

/// The input screen.
pub struct InputScreen {
    workflow: WorkflowSelector,
    fields: Vec<InputField>,
    focus: Focus,
    page: Page,
    target: TerminalTargetSelector,
    running_task: Option<RunningTask>,
    next_task_id: u64,
    show_required_errors: bool,
}

impl InputScreen {
    /// The focus and the running command name inputs that there are.
    pub open spec fn wf(self) -> bool {
        &&& valid_focus(self.focus_view(), self.fields_view().len())
        &&& match self.running_view() {
            Some((_, f)) => f < self.fields_view().len(),
            None => true,
        }
    }

    pub closed spec fn workflow_view(self) -> WorkflowSelector {
        self.workflow
    }

    pub closed spec fn fields_view(self) -> Seq<InputField> {
        self.fields@
    }

    pub closed spec fn focus_view(self) -> Focus {
        self.focus
    }

    pub closed spec fn page_view(self) -> Page {
        self.page
    }

    pub closed spec fn target_view(self) -> TerminalTargetSelector {
        self.target
    }

    /// The candidate command that runs: its id and its input.
    pub closed spec fn running_view(self) -> Option<(u64, usize)> {
        match self.running_task {
            Some(t) => Some((t.id, t.field)),
            None => None,
        }
    }

    pub closed spec fn next_id_view(self) -> u64 {
        self.next_task_id
    }

    /// Missing required values are pointed out.
    pub closed spec fn show_errors_view(self) -> bool {
        self.show_required_errors
    }

    /// The saved values, by input name.
    pub open spec fn saved(self) -> Map<Seq<char>, Seq<char>> {
        saved_map(self.fields_view(), self.fields_view().len() as int)
    }
}


/// Each input is the one its definition describes.
pub open spec fn fields_for(fields: Seq<InputField>, defs: Seq<InputDefinition>) -> bool {
    fields.len() == defs.len() && forall|k: int| 0 <= k < fields.len() ==> defines(#[trigger] fields[k], defs[k])
}

/// The inputs of the workflow saved, if any.
pub open spec fn workflow_inputs(w: WorkflowSelector) -> Seq<InputDefinition> {
    match w.selected_workflow() {
        Some(wf) => wf.input_definitions(),
        None => Seq::empty(),
    }
}

/// The inputs of the workflow saved, with nothing saved in them.
fn fields_of(workflow: &WorkflowSelector) -> (res: Vec<InputField>)
    ensures
        fields_for(res@, workflow_inputs(*workflow)),
{
    let mut fields: Vec<InputField> = Vec::new();
    let defs = match workflow.selected() {
        Some(w) => w.inputs(),
        None => {
            return fields;
        },
    };
    let mut k: usize = 0;
    while k < defs.len()
        invariant
            k <= defs.len(),
            defs@ == workflow_inputs(*workflow),
            fields@.len() == k,
            forall|j: int| 0 <= j < k ==> defines(#[trigger] fields@[j], defs@[j]),
        decreases defs.len() - k,
    {
        fields.push(InputField::from_definition(&defs[k]));
        k += 1;
    }
    fields
}

impl InputScreen {
    /// The screen for a workflow chooser, listing the panes of
    /// `terminals`: the focus on the destination, the inputs of the
    /// workflow saved, if any.
    pub fn new(workflow: WorkflowSelector, terminals: Vec<TerminalApplication>) -> (res: InputScreen)
        ensures
            res.workflow_view() == workflow,
            fields_for(res.fields_view(), workflow_inputs(workflow)),
            res.focus_view() == Focus::Target,
            res.page_view() == Page::Input,
            res.target_view().applications_view() == terminals@,
            res.target_view().saved_key() is None,
            res.target_view().last_view() is None,
            res.target_view().state_view() is Idle,
            res.running_view() is None,
            res.next_id_view() == 0,
            !res.show_errors_view(),
            res.wf(),
    {
        let fields = fields_of(&workflow);
        InputScreen {
            workflow,
            fields,
            focus: Focus::Target,
            page: Page::Input,
            target: TerminalTargetSelector::new(terminals),
            running_task: None,
            next_task_id: 0,
            show_required_errors: false,
        }
    }

    pub fn focus(&self) -> (res: Focus)
        ensures
            res == self.focus_view(),
    {
        self.focus
    }

    pub fn page(&self) -> (res: Page)
        ensures
            res == self.page_view(),
    {
        self.page
    }

    pub fn fields(&self) -> (res: &Vec<InputField>)
        ensures
            res@ == self.fields_view(),
    {
        &self.fields
    }

    pub fn target(&self) -> (res: &TerminalTargetSelector)
        ensures
            *res == self.target_view(),
    {
        &self.target
    }

    pub fn workflow(&self) -> (res: &WorkflowSelector)
        ensures
            *res == self.workflow_view(),
    {
        &self.workflow
    }

    /// The id of the candidate command that runs, if any.
    pub fn running_task_id(&self) -> (res: Option<u64>)
        ensures
            match res {
                Some(id) => self.running_view() matches Some((i, _)) && i == id,
                None => self.running_view() is None,
            },
    {
        match &self.running_task {
            Some(t) => Some(t.id),
            None => None,
        }
    }

    /// Gives the focus to `focus` as it is, saving nothing.
    pub fn set_focus(&mut self, focus: Focus)
        requires
            old(self).wf(),
            valid_focus(focus, old(self).fields_view().len()),
        ensures
            final(self).wf(),
            final(self).focus_view() == focus,
            unchanged_but_focus(*old(self), *final(self)),
    {
        self.focus = focus;
    }

    /// Moves the focus forward: destination, workflow, each input, and
    /// round again.
    pub fn focus_next(&mut self)
        requires
            old(self).wf(),
        ensures
            final(self).wf(),
            final(self).focus_view() == next_focus(old(self).focus_view(), old(self).fields_view().len()),
            unchanged_but_focus(*old(self), *final(self)),
    {
        let n = self.fields.len();
        self.focus = match self.focus {
            Focus::Target => Focus::Workflow,
            Focus::Workflow => if n == 0 {
                Focus::Target
            } else {
                Focus::Field(0)
            },
            Focus::Field(i) => if i + 1 < n {
                Focus::Field(i + 1)
            } else {
                Focus::Target
            },
        };
    }

    /// Moves the focus back.
    pub fn focus_previous(&mut self)
        requires
            old(self).wf(),
        ensures
            final(self).wf(),
            final(self).focus_view() == previous_focus(old(self).focus_view(), old(self).fields_view().len()),
            unchanged_but_focus(*old(self), *final(self)),
    {
        let n = self.fields.len();
        self.focus = match self.focus {
            Focus::Target => if n == 0 {
                Focus::Workflow
            } else {
                Focus::Field(n - 1)
            },
            Focus::Workflow => Focus::Target,
            Focus::Field(i) => if i == 0 {
                Focus::Workflow
            } else {
                Focus::Field(i - 1)
            },
        };
    }

    /// The saved values, by input name.
    pub fn saved_values(&self) -> (res: Values)
        ensures
            res@ == self.saved(),
    {
        let mut values = Values::new();
        let mut k: usize = 0;
        while k < self.fields.len()
            invariant
                k <= self.fields@.len(),
                values@ == saved_map(self.fields@, k as int),
            decreases self.fields@.len() - k,
        {
            let field = &self.fields[k];
            if let Some(v) = field.value() {
                values.insert(field.name().to_string(), v.to_string());
            }
            k += 1;
        }
        values
    }

    /// Every input has a value or may stay empty.
    pub fn all_fields_can_submit(&self) -> (res: bool)
        ensures
            res == (forall|k: int| 0 <= k < self.fields_view().len() ==> can_submit(#[trigger] self.fields_view()[k])),
    {
        let mut k: usize = 0;
        while k < self.fields.len()
            invariant
                k <= self.fields@.len(),
                forall|j: int| 0 <= j < k ==> can_submit(#[trigger] self.fields@[j]),
            decreases self.fields@.len() - k,
        {
            if self.fields[k].value().is_none() && !self.fields[k].allow_empty() {
                assert(!can_submit(self.fields_view()[k as int]));
                return false;
            }
            k += 1;
        }
        true
    }

    /// Something loads: the panes, or the candidates of an input; the
    /// screen then shows a turning spinner.
    pub fn is_busy(&self) -> (res: bool)
        ensures
            res == (self.target_view().state_view() is Loading || exists|k: int|
                0 <= k < self.fields_view().len() && (#[trigger] self.fields_view()[k]).load_state_view() matches Some(
                    LoadState::Loading,
                )),
    {
        if self.target.is_loading() {
            return true;
        }
        let mut k: usize = 0;
        while k < self.fields.len()
            invariant
                k <= self.fields@.len(),
                forall|j: int| 0 <= j < k ==> !((#[trigger] self.fields@[j]).load_state_view() matches Some(LoadState::Loading)),
            decreases self.fields@.len() - k,
        {
            if self.fields[k].is_loading() {
                return true;
            }
            k += 1;
        }
        false
    }

    /// The first input that blocks submitting.
    fn first_blocking_field(&self) -> (res: Option<usize>)
        ensures
            match res {
                Some(k) => first_blocking(self.fields_view(), 0) == Some(k as int) && k < self.fields_view().len(),
                None => first_blocking(self.fields_view(), 0) is None,
            },
    {
        let mut k: usize = 0;
        while k < self.fields.len()
            invariant
                k <= self.fields@.len(),
                first_blocking(self.fields@, 0) == first_blocking(self.fields@, k as int),
            decreases self.fields@.len() - k,
        {
            if self.fields[k].value().is_none() && !self.fields[k].allow_empty() {
                return Some(k);
            }
            k += 1;
        }
        None
    }
}

/// Everything but the focus stays.
pub open spec fn unchanged_but_focus(a: InputScreen, b: InputScreen) -> bool {
    &&& b.workflow_view() == a.workflow_view()
    &&& b.fields_view() == a.fields_view()
    &&& b.page_view() == a.page_view()
    &&& b.target_view() == a.target_view()
    &&& b.running_view() == a.running_view()
    &&& b.next_id_view() == a.next_id_view()
    &&& b.show_errors_view() == a.show_errors_view()
}


/// The inputs after a change of input `changed`'s value: those it
/// invalidates are cleared, the others stay.
pub open spec fn after_invalidation(before: Seq<InputField>, after: Seq<InputField>, changed: Seq<char>) -> bool {
    &&& after.len() == before.len()
    &&& forall|k: int|
        0 <= k < before.len() ==> if invalidated(before, changed, k) {
            cleared(before[k], #[trigger] after[k])
        } else {
            after[k] == before[k]
        }
}

/// The running command after a change: stopped where its input is
/// invalidated.
pub open spec fn running_after(fields: Seq<InputField>, changed: Seq<char>, running: Option<(u64, usize)>) -> Option<(u64, usize)> {
    match running {
        Some((id, f)) => if invalidated(fields, changed, f as int) {
            None
        } else {
            running
        },
        None => None,
    }
}

impl InputScreen {
    /// Clears the inputs that wait, directly or through other inputs, for
    /// the input named `changed`, and stops the command of one of them.
    pub fn invalidate_dependents(&mut self, changed: &str)
        requires
            old(self).wf(),
        ensures
            final(self).wf(),
            after_invalidation(old(self).fields_view(), final(self).fields_view(), changed@),
            final(self).running_view() == running_after(
                old(self).fields_view(),
                changed@,
                old(self).running_view(),
            ),
            final(self).focus_view() == old(self).focus_view(),
            final(self).workflow_view() == old(self).workflow_view(),
            final(self).target_view() == old(self).target_view(),
            final(self).page_view() == old(self).page_view(),
            final(self).next_id_view() == old(self).next_id_view(),
            final(self).show_errors_view() == old(self).show_errors_view(),
    {
        let ghost before = self.fields@;
        let mut names: Vec<String> = Vec::new();
        names.push(changed.to_string());
        assert(string_views(names@) =~= invalidated_names(before, changed@, 0));
        let mut rest: Vec<InputField> = Vec::new();
        std::mem::swap(&mut rest, &mut self.fields);
        let mut done: Vec<InputField> = Vec::new();
        let mut running = self.running_task;
        let n = rest.len();
        let mut k: usize = 0;
        assert(rest@.skip(0) =~= before);
        while k < n
            invariant
                n == before.len(),
                k <= n,
                rest@ == before.skip(k as int),
                done@.len() == k,
                string_views(names@) == invalidated_names(before, changed@, k as int),
                forall|j: int|
                    0 <= j < k ==> if invalidated(before, changed@, j) {
                        cleared(before[j], #[trigger] done@[j])
                    } else {
                        done@[j] == before[j]
                    },
                match running {
                    Some(t) => match old(self).running_view() {
                        Some((id, f)) => t.id == id && t.field == f && (f < k ==> !invalidated(
                            before,
                            changed@,
                            f as int,
                        )),
                        None => false,
                    },
                    None => match old(self).running_view() {
                        Some((_, f)) => f < k && invalidated(before, changed@, f as int),
                        None => true,
                    },
                },
                self.running_task == old(self).running_task,
                old(self).wf(),
                old(self).fields_view() == before,
            decreases n - k,
        {
            let ghost rest_before = rest@;
            let mut field = rest.remove(0);
            assert(field == before[k as int]);
            assert(rest@ =~= before.skip(k + 1));
            let mut hit = false;
            let mut m: usize = 0;
            while m < names.len() && !hit
                invariant
                    m <= names.len(),
                    hit ==> waits_for_any(field, string_views(names@)),
                    !hit ==> forall|j: int| 0 <= j < m ==> !field.dependencies().contains(#[trigger] string_views(names@)[j]),
                decreases names.len() - m,
            {
                if field.depends_on(names[m].as_str()) {
                    assert(string_views(names@)[m as int] == names@[m as int]@);
                    hit = true;
                }
                m += 1;
            }
            proof {
                if !hit {
                    assert(!waits_for_any(field, string_views(names@)));
                }
            }
            if hit {
                let ghost names_before = names@;
                names.push(field.name().to_string());
                assert(string_views(names@) =~= string_views(names_before).push(before[k as int].name_view()));
                field.invalidate();
                if let Some(t) = running {
                    if t.field == k {
                        running = None;
                    }
                }
            }
            done.push(field);
            k += 1;
        }
        self.fields = done;
        self.running_task = running;
        proof {
            assert(self.fields@.len() == before.len());
        }
    }
}


/// Two sequences of inputs have the same names and dependencies.
pub open spec fn same_shape(a: Seq<InputField>, b: Seq<InputField>) -> bool {
    &&& a.len() == b.len()
    &&& forall|k: int|
        0 <= k < a.len() ==> (#[trigger] a[k]).name_view() == b[k].name_view() && a[k].dependencies()
            == b[k].dependencies()
}

proof fn lemma_invalidated_names_shape(a: Seq<InputField>, b: Seq<InputField>, changed: Seq<char>, k: int)
    requires
        same_shape(a, b),
        k <= a.len(),
    ensures
        invalidated_names(a, changed, k) == invalidated_names(b, changed, k),
    decreases k,
{
    if k > 0 {
        lemma_invalidated_names_shape(a, b, changed, k - 1);
        let names = invalidated_names(a, changed, k - 1);
        assert(a[k - 1].name_view() == b[k - 1].name_view() && a[k - 1].dependencies() == b[k - 1].dependencies());
        assert(waits_for_any(a[k - 1], names) == waits_for_any(b[k - 1], names));
    }
}

/// The inputs after input `index` is saved, where it had a draft: it keeps
/// the draft, or nothing where the draft is blank; where that changes a
/// value saved before, the inputs that wait for it are cleared.
pub open spec fn after_field_saved(before: Seq<InputField>, after: Seq<InputField>, index: int) -> bool {
    let f = before[index];
    let value = saved_value(f.draft_view().unwrap());
    let changed = f.value_view() is Some && f.value_view() != value;
    &&& after.len() == before.len()
    &&& forall|k: int|
        0 <= k < before.len() ==> if changed && invalidated(before, f.name_view(), k) {
            cleared(before[k], #[trigger] after[k])
        } else if k == index {
            &&& after[k].value_view() == value
            &&& after[k].name_view() == f.name_view()
            &&& after[k].title_view() == f.title_view()
            &&& after[k].allow_empty_view() == f.allow_empty_view()
            &&& after[k].control_view() == f.control_view()
        } else {
            after[k] == before[k]
        }
}

impl InputScreen {
    /// Saves input `index`'s draft, clearing the inputs that wait for it
    /// where its value changed; says whether it had a draft to save.
    pub fn save_field(&mut self, index: usize) -> (res: bool)
        requires
            old(self).wf(),
            index < old(self).fields_view().len(),
        ensures
            final(self).wf(),
            res == old(self).fields_view()[index as int].draft_view() is Some,
            !res ==> final(self).fields_view() == old(self).fields_view() && final(self).running_view()
                == old(self).running_view(),
            res ==> after_field_saved(old(self).fields_view(), final(self).fields_view(), index as int),
            res ==> final(self).running_view() == {
                let f = old(self).fields_view()[index as int];
                let changed = f.value_view() is Some && f.value_view() != saved_value(f.draft_view().unwrap());
                if changed {
                    running_after(old(self).fields_view(), f.name_view(), old(self).running_view())
                } else {
                    old(self).running_view()
                }
            },
            final(self).focus_view() == old(self).focus_view(),
            final(self).workflow_view() == old(self).workflow_view(),
            final(self).target_view() == old(self).target_view(),
            final(self).page_view() == old(self).page_view(),
            final(self).next_id_view() == old(self).next_id_view(),
            final(self).show_errors_view() == old(self).show_errors_view(),
    {
        let ghost before = self.fields@;
        let mut field = self.fields.remove(index);
        let outcome = field.save();
        self.fields.insert(index, field);
        let ghost middle = self.fields@;
        assert(middle =~= before.update(index as int, field));
        match outcome {
            None => {
                assert(self.fields@ =~= before);
                false
            },
            Some(o) => {
                proof {
                    assert(same_shape(before, middle));
                    assert forall|k: int| 0 <= k <= before.len() implies invalidated_names(before, before[index as int].name_view(), k)
                        == invalidated_names(middle, before[index as int].name_view(), k) by {
                        lemma_invalidated_names_shape(before, middle, before[index as int].name_view(), k);
                    }
                }
                if o.changed {
                    let name = self.fields[index].name().to_string();
                    self.invalidate_dependents(&name);
                }
                true
            },
        }
    }
}


/// The destination chooser after saving the selected pane.
pub open spec fn target_saved(before: TerminalTargetSelector, after: TerminalTargetSelector, res: bool) -> bool {
    &&& res == before.select_view().selected_key_view() is Some
    &&& after.saved_key() == if res {
        before.select_view().selected_key_view()
    } else {
        before.saved_key()
    }
    &&& after.select_view() == before.select_view()
    &&& after.last_view() == before.last_view()
    &&& after.state_view() == before.state_view()
    &&& after.applications_view() == before.applications_view()
}

/// Saving what has the focus loads a workflow file: the workflow chooser
/// has the focus and a file other than the one saved is selected.
pub open spec fn load_due(s: InputScreen) -> bool {
    s.focus_view() == Focus::Workflow && s.workflow_view().step_view() is Load
}

/// `after` is `before` after saving what has the focus: the selected pane
/// as destination, the selected workflow file (its inputs replace the old
/// ones where the workflow changes), or the draft of the focused input;
/// `res` says whether something was saved. `loaded`, what loading the
/// selected workflow file gave, is there exactly when a load is due.
pub open spec fn focused_saved(
    before: InputScreen,
    after: InputScreen,
    res: bool,
    loaded: Option<Result<Workflow, String>>,
) -> bool {
    &&& (loaded is Some) == load_due(before)
    &&& after.focus_view() == before.focus_view()
    &&& after.page_view() == before.page_view()
    &&& after.next_id_view() == before.next_id_view()
    &&& after.wf()
    &&& match before.focus_view() {
        Focus::Target => {
            &&& target_saved(before.target_view(), after.target_view(), res)
            &&& after.workflow_view() == before.workflow_view()
            &&& after.fields_view() == before.fields_view()
            &&& after.running_view() == before.running_view()
            &&& after.show_errors_view() == before.show_errors_view()
        },
        Focus::Workflow => {
            &&& after.target_view() == before.target_view()
            &&& exists|saved: Option<bool>|
                #[trigger] saves(before.workflow_view(), after.workflow_view(), loaded, saved) && res
                    == saved is Some && if saved == Some(true) {
                    &&& fields_for(after.fields_view(), workflow_inputs(after.workflow_view()))
                    &&& after.running_view() is None
                    &&& !after.show_errors_view()
                } else {
                    &&& after.fields_view() == before.fields_view()
                    &&& after.running_view() == before.running_view()
                    &&& after.show_errors_view() == before.show_errors_view()
                }
        },
        Focus::Field(i) => {
            &&& after.target_view() == before.target_view()
            &&& after.workflow_view() == before.workflow_view()
            &&& after.show_errors_view() == before.show_errors_view()
            &&& res == before.fields_view()[i as int].draft_view() is Some
            &&& !res ==> after.fields_view() == before.fields_view() && after.running_view()
                == before.running_view()
            &&& res ==> after_field_saved(before.fields_view(), after.fields_view(), i as int)
            &&& res ==> after.running_view() == {
                let f = before.fields_view()[i as int];
                let changed = f.value_view() is Some && f.value_view() != saved_value(
                    f.draft_view().unwrap(),
                );
                if changed {
                    running_after(before.fields_view(), f.name_view(), before.running_view())
                } else {
                    before.running_view()
                }
            }
        },
    }
}

impl InputScreen {
    /// The inputs of the workflow saved replace the old ones; a running
    /// command stops and missing values are no longer pointed out.
    fn replace_fields(&mut self)
        requires
            !(old(self).focus_view() is Field),
        ensures
            final(self).wf(),
            fields_for(final(self).fields_view(), workflow_inputs(final(self).workflow_view())),
            final(self).running_view() is None,
            !final(self).show_errors_view(),
            final(self).workflow_view() == old(self).workflow_view(),
            final(self).target_view() == old(self).target_view(),
            final(self).focus_view() == old(self).focus_view(),
            final(self).page_view() == old(self).page_view(),
            final(self).next_id_view() == old(self).next_id_view(),
    {
        self.running_task = None;
        self.fields = fields_of(&self.workflow);
        self.show_required_errors = false;
    }

    /// Saves the selected workflow file, given what loading it gave where it
    /// had to be loaded; says whether a workflow was saved.
    fn save_workflow(&mut self, loaded: Option<Result<Workflow, String>>) -> (res: bool)
        requires
            old(self).wf(),
            old(self).focus_view() == Focus::Workflow,
            (loaded is Some) == load_due(*old(self)),
        ensures
            focused_saved(*old(self), *final(self), res, loaded),
    {
        let ghost before = self.workflow;
        let saved = self.workflow.save(loaded);
        match saved {
            None => {
                assert(saves(before, self.workflow_view(), loaded, saved));
                assert(self.wf());
                assert(self.fields_view() == old(self).fields_view());
                assert(self.target_view() == old(self).target_view());
                assert(exists|s: Option<bool>| #[trigger] saves(before, self.workflow_view(), loaded, s) && false == s is Some && s != Some(true));
                assert(old(self).workflow_view() == before);
                assert(focused_saved(*old(self), *self, false, loaded));
                false
            },
            Some(changed) => {
                if changed {
                    self.replace_fields();
                }
                assert(saves(before, self.workflow_view(), loaded, saved));
                assert(old(self).workflow_view() == before);
                assert(saves(old(self).workflow_view(), self.workflow_view(), loaded, saved));
                assert(self.focus_view() == old(self).focus_view());
                assert(self.page_view() == old(self).page_view());
                assert(self.next_id_view() == old(self).next_id_view());
                assert(self.wf());
                assert(self.target_view() == old(self).target_view());
                assert(focused_saved(*old(self), *self, true, loaded));
                true
            },
        }
    }

    /// Saves what has the focus; says whether something was saved.
    pub fn save_focused(&mut self, loaded: Option<Result<Workflow, String>>) -> (res: bool)
        requires
            old(self).wf(),
            (loaded is Some) == load_due(*old(self)),
        ensures
            focused_saved(*old(self), *final(self), res, loaded),
    {
        match self.focus {
            Focus::Target => self.target.save(),
            Focus::Workflow => self.save_workflow(loaded),
            Focus::Field(i) => self.save_field(i),
        }
    }
}


/// Two screens show the same.
pub open spec fn same_screen(a: InputScreen, b: InputScreen) -> bool {
    &&& a.focus_view() == b.focus_view()
    &&& unchanged_but_focus(a, b)
}

/// `after` is `before` with the focused control moved in `direction`:
/// the destination tree's or the workflow list's selection, an input
/// select's selection, or a textarea's cursor line, as `textarea_moved`
/// tells; `res` says whether it moved.
pub open spec fn moved_within(
    before: InputScreen,
    after: InputScreen,
    direction: NavigationDirection,
    textarea_moved: bool,
    res: bool,
) -> bool {
    &&& after.focus_view() == before.focus_view()
    &&& after.page_view() == before.page_view()
    &&& after.running_view() == before.running_view()
    &&& after.next_id_view() == before.next_id_view()
    &&& after.show_errors_view() == before.show_errors_view()
    &&& match before.focus_view() {
        Focus::Target => {
            &&& tree_changed(before.target_view(), after.target_view())
            &&& navigated(before.target_view().select_view(), after.target_view().select_view(), direction)
            &&& res == moved(
                before.target_view().select_view().selected_view(),
                before.target_view().select_view().candidates_view().len(),
                direction,
            ) is Some
            &&& after.workflow_view() == before.workflow_view()
            &&& after.fields_view() == before.fields_view()
        },
        Focus::Workflow => {
            &&& select_navigated(before.workflow_view().select_view(), after.workflow_view().select_view(), direction)
            &&& res == (after.workflow_view().select_view().selected_position()
                != before.workflow_view().select_view().selected_position())
            &&& after.workflow_view().selection_view() == before.workflow_view().selection_view()
            &&& after.workflow_view().selected_workflow() == before.workflow_view().selected_workflow()
            &&& after.workflow_view().error_view() is None
            &&& after.target_view() == before.target_view()
            &&& after.fields_view() == before.fields_view()
        },
        Focus::Field(i) => {
            &&& field_navigated(before.fields_view()[i as int], after.fields_view()[i as int], direction, textarea_moved, res)
            &&& after.fields_view() == before.fields_view().update(i as int, after.fields_view()[i as int])
            &&& after.target_view() == before.target_view()
            &&& after.workflow_view() == before.workflow_view()
        },
    }
}

/// `after` is `mid` with the focus moved in `direction` where `saved`.
pub open spec fn focus_moved(mid: InputScreen, after: InputScreen, direction: NavigationDirection, saved: bool) -> bool {
    &&& unchanged_but_focus(mid, after)
    &&& after.focus_view() == if !saved {
        mid.focus_view()
    } else {
        match direction {
            NavigationDirection::Previous => previous_focus(mid.focus_view(), mid.fields_view().len()),
            NavigationDirection::Next => next_focus(mid.focus_view(), mid.fields_view().len()),
        }
    }
}

/// `after` is `before` after a move in `direction`: within the focused
/// control where it can move, else, where what has the focus can be
/// saved, to the previous or next section.
pub open spec fn navigated_screen(
    before: InputScreen,
    after: InputScreen,
    direction: NavigationDirection,
    textarea_moved: bool,
    loaded: Option<Result<Workflow, String>>,
) -> bool {
    exists|mid: InputScreen, within: bool|
        #[trigger] moved_within(before, mid, direction, textarea_moved, within) && if within {
            same_screen(mid, after) && loaded is None
        } else {
            exists|saved_state: InputScreen, saved: bool|
                #[trigger] focused_saved(mid, saved_state, saved, loaded) && focus_moved(
                    saved_state,
                    after,
                    direction,
                    saved,
                )
        }
}

impl InputScreen {
    /// What loading the selected workflow file gives, where saving the
    /// focus would load it: `load` is called with its path.
    pub fn loaded_for<F: Fn(String) -> Result<Workflow, String>>(&self, load: &F) -> (res: Option<
        Result<Workflow, String>,
    >)
        requires
            forall|path: String| call_requires(*load, (path,)),
        ensures
            match (self.focus_view(), self.workflow_view().step_view()) {
                (Focus::Workflow, SaveStep::Load(path)) => res matches Some(r) && exists|p: String|
                    p@ == path@ && #[trigger] call_ensures(*load, (p,), r),
                _ => res is None,
            },
    {
        if self.focus != Focus::Workflow {
            return None;
        }
        match self.workflow.save_step() {
            SaveStep::Load(path) => Some(load(path)),
            _ => None,
        }
    }

}

/// `loaded` is nothing, or what `load` gave for the path of the file
/// selected in the workflow chooser `w`.
pub open spec fn loaded_from<F: Fn(String) -> Result<Workflow, String>>(
    load: F,
    loaded: Option<Result<Workflow, String>>,
    w: WorkflowSelector,
) -> bool {
    match loaded {
        Some(r) => w.select_view().selected_item() matches Some(item) && exists|p: String|
            p@ == item.value@ && #[trigger] call_ensures(load, (p,), r),
        None => true,
    }
}

impl InputScreen {
    /// Moves the focused control in `direction`, where it can move, else
    /// saves what has the focus and moves the focus in `direction`; a
    /// workflow file to save is loaded with `load`.
    pub fn navigate<F: Fn(String) -> Result<Workflow, String>>(
        &mut self,
        direction: NavigationDirection,
        textarea_moved: bool,
        load: &F,
    )
        requires
            old(self).wf(),
            forall|path: String| call_requires(*load, (path,)),
        ensures
            final(self).wf(),
            exists|loaded: Option<Result<Workflow, String>>|
                #[trigger] navigated_screen(*old(self), *final(self), direction, textarea_moved, loaded)
                    && loaded_from(*load, loaded, final(self).workflow_view()),
    {
        let ghost before = *self;
        let within = match self.focus {
            Focus::Target => self.target.navigate(direction),
            Focus::Workflow => self.workflow.navigate(direction),
            Focus::Field(i) => {
                let mut field = self.fields.remove(i);
                let res = field.navigate(direction, textarea_moved);
                self.fields.insert(i, field);
                assert(self.fields@ =~= before.fields_view().update(i as int, field));
                res
            },
        };
        let ghost mid = *self;
        assert(moved_within(before, mid, direction, textarea_moved, within));
        if within {
            assert(same_screen(mid, *self));
            assert(navigated_screen(before, *self, direction, textarea_moved, None));
            return;
        }
        let loaded = self.loaded_for(load);
        let ghost given = loaded;
        let saved = self.save_focused(loaded);
        let ghost saved_state = *self;
        if saved {
            match direction {
                NavigationDirection::Previous => self.focus_previous(),
                NavigationDirection::Next => self.focus_next(),
            }
        }
        assert(focus_moved(saved_state, *self, direction, saved));
        assert(navigated_screen(before, *self, direction, textarea_moved, given));
    }
}


/// Where submitting leads: to the destination where none is saved, to the
/// workflow where none is saved, to submitting where every input can be
/// submitted, else to the first input that blocks it.
pub open spec fn submit_outcome(s: InputScreen) -> (Focus, ScreenAction) {
    if s.target_view().selected_view() is None {
        (Focus::Target, ScreenAction::Redraw)
    } else if s.workflow_view().selected_workflow() is None {
        (Focus::Workflow, ScreenAction::Redraw)
    } else if forall|k: int| 0 <= k < s.fields_view().len() ==> can_submit(#[trigger] s.fields_view()[k]) {
        (s.focus_view(), ScreenAction::Submit)
    } else {
        match first_blocking(s.fields_view(), 0) {
            Some(k) => (Focus::Field(k as usize), ScreenAction::Redraw),
            None => (s.focus_view(), ScreenAction::Redraw),
        }
    }
}

/// `after` is `before` after an attempt to submit that answered `res`.
pub open spec fn submitted(before: InputScreen, after: InputScreen, res: ScreenAction) -> bool {
    &&& unchanged_but_focus(before, after)
    &&& (after.focus_view(), res) == submit_outcome(before)
}

/// `after` is `before` with what has the focus saved and, where it was,
/// the focus moved on.
pub open spec fn advanced(before: InputScreen, after: InputScreen, loaded: Option<Result<Workflow, String>>) -> bool {
    exists|mid: InputScreen, saved: bool|
        #[trigger] focused_saved(before, mid, saved, loaded) && focus_moved(mid, after, NavigationDirection::Next, saved)
}

/// `after` is `before` with the focus moved to `focus` where what has the
/// focus could be saved. Saving a newly chosen workflow replaces the
/// inputs; where `focus` names an input that no longer exists after that,
/// the focus stays where it was, since there is nothing there to edit.
pub open spec fn focused_on(
    before: InputScreen,
    after: InputScreen,
    focus: Focus,
    loaded: Option<Result<Workflow, String>>,
) -> bool {
    if focus == before.focus_view() {
        same_screen(before, after) && loaded is None
    } else {
        exists|mid: InputScreen, saved: bool|
            #[trigger] focused_saved(before, mid, saved, loaded) && unchanged_but_focus(mid, after)
                && after.focus_view() == if saved && valid_focus(focus, mid.fields_view().len()) {
                focus
            } else {
                mid.focus_view()
            }
    }
}

/// `after` is `before` with missing values pointed out from now on.
pub open spec fn errors_shown(before: InputScreen, after: InputScreen) -> bool {
    &&& after.focus_view() == before.focus_view()
    &&& after.workflow_view() == before.workflow_view()
    &&& after.fields_view() == before.fields_view()
    &&& after.page_view() == before.page_view()
    &&& after.target_view() == before.target_view()
    &&& after.running_view() == before.running_view()
    &&& after.next_id_view() == before.next_id_view()
    &&& after.show_errors_view()
}

/// `after` is `before` after missing values are pointed out, what has the
/// focus is saved, and, where it was, submitting is attempted.
pub open spec fn saved_and_submitted(
    before: InputScreen,
    after: InputScreen,
    res: ScreenAction,
    loaded: Option<Result<Workflow, String>>,
) -> bool {
    exists|shown: InputScreen, mid: InputScreen, saved: bool|
        #[trigger] errors_shown(before, shown) && #[trigger] focused_saved(shown, mid, saved, loaded) && if saved {
            submitted(mid, after, res)
        } else {
            same_screen(mid, after) && res == ScreenAction::Redraw
        }
}

impl InputScreen {
    /// Attempts to submit: where the destination or the workflow is
    /// missing, or an input blocks it, the focus moves there instead.
    pub fn submit(&mut self) -> (res: ScreenAction)
        requires
            old(self).wf(),
        ensures
            final(self).wf(),
            submitted(*old(self), *final(self), res),
    {
        if self.target.selected().is_none() {
            self.focus = Focus::Target;
            ScreenAction::Redraw
        } else if self.workflow.selected().is_none() {
            self.focus = Focus::Workflow;
            ScreenAction::Redraw
        } else if self.all_fields_can_submit() {
            ScreenAction::Submit
        } else {
            if let Some(k) = self.first_blocking_field() {
                self.focus = Focus::Field(k);
            }
            ScreenAction::Redraw
        }
    }

    /// Saves what has the focus and, where it was, moves the focus on.
    pub fn save_and_advance<F: Fn(String) -> Result<Workflow, String>>(&mut self, load: &F)
        requires
            old(self).wf(),
            forall|path: String| call_requires(*load, (path,)),
        ensures
            final(self).wf(),
            exists|loaded: Option<Result<Workflow, String>>|
                #[trigger] advanced(*old(self), *final(self), loaded) && loaded_from(*load, loaded, final(self).workflow_view()),
    {
        let ghost before = *self;
        let loaded = self.loaded_for(load);
        let ghost given = loaded;
        let saved = self.save_focused(loaded);
        let ghost mid = *self;
        if saved {
            self.focus_next();
        }
        assert(focus_moved(mid, *self, NavigationDirection::Next, saved));
        assert(advanced(before, *self, given));
    }

    /// Moves the focus to `focus`, where what has the focus can be saved
    /// and `focus` still names something after the save.
    pub fn focus_on<F: Fn(String) -> Result<Workflow, String>>(&mut self, focus: Focus, load: &F)
        requires
            old(self).wf(),
            forall|path: String| call_requires(*load, (path,)),
        ensures
            final(self).wf(),
            exists|loaded: Option<Result<Workflow, String>>|
                #[trigger] focused_on(*old(self), *final(self), focus, loaded) && loaded_from(*load, loaded, final(self).workflow_view()),
    {
        let ghost before = *self;
        if self.focus == focus {
            assert(focused_on(before, *self, focus, None));
            return;
        }
        let loaded = self.loaded_for(load);
        let ghost given = loaded;
        let saved = self.save_focused(loaded);
        let ghost mid = *self;
        let valid = match focus {
            Focus::Field(i) => i < self.fields.len(),
            _ => true,
        };
        if saved && valid {
            self.focus = focus;
        }
        assert(unchanged_but_focus(mid, *self));
        assert(focused_on(before, *self, focus, given));
    }

    /// Points out missing values, saves what has the focus and, where it
    /// was, attempts to submit.
    pub fn save_focused_and_submit<F: Fn(String) -> Result<Workflow, String>>(&mut self, load: &F) -> (res: ScreenAction)
        requires
            old(self).wf(),
            forall|path: String| call_requires(*load, (path,)),
        ensures
            final(self).wf(),
            exists|loaded: Option<Result<Workflow, String>>|
                #[trigger] saved_and_submitted(*old(self), *final(self), res, loaded) && loaded_from(*load, loaded, final(self).workflow_view()),
    {
        let ghost before = *self;
        self.show_required_errors = true;
        let ghost shown = *self;
        assert(errors_shown(before, shown));
        let loaded = self.loaded_for(load);
        let ghost given = loaded;
        let saved = self.save_focused(loaded);
        let ghost mid = *self;
        if !saved {
            assert(saved_and_submitted(before, *self, ScreenAction::Redraw, given));
            return ScreenAction::Redraw;
        }
        let res = self.submit();
        assert(saved_and_submitted(before, *self, res, given));
        res
    }
}


/// The key moves through candidates and sections, and which way.
pub open spec fn key_direction(key: Key) -> Option<NavigationDirection> {
    match key {
        Key::Tab | Key::Down => Some(NavigationDirection::Next),
        Key::BackTab | Key::Up => Some(NavigationDirection::Previous),
        _ => None,
    }
}

/// Whether `key` moves through candidates and sections, and which way.
pub fn navigation_direction(key: Key) -> (res: Option<NavigationDirection>)
    ensures
        res == key_direction(key),
{
    match key {
        Key::Tab | Key::Down => Some(NavigationDirection::Next),
        Key::BackTab | Key::Up => Some(NavigationDirection::Previous),
        _ => None,
    }
}

/// `after` is `before` with the page switched to `page`.
pub open spec fn page_switched(before: InputScreen, after: InputScreen, page: Page) -> bool {
    &&& after.page_view() == page
    &&& after.focus_view() == before.focus_view()
    &&& after.workflow_view() == before.workflow_view()
    &&& after.fields_view() == before.fields_view()
    &&& after.target_view() == before.target_view()
    &&& after.running_view() == before.running_view()
    &&& after.next_id_view() == before.next_id_view()
    &&& after.show_errors_view() == before.show_errors_view()
}

/// `after` is `before` with the workflow chooser's error forgotten.
pub open spec fn workflow_error_cleared(before: InputScreen, after: InputScreen) -> bool {
    &&& after.workflow_view().select_view() == before.workflow_view().select_view()
    &&& after.workflow_view().selection_view() == before.workflow_view().selection_view()
    &&& after.workflow_view().selected_workflow() == before.workflow_view().selected_workflow()
    &&& after.workflow_view().error_view() is None
    &&& same_but_workflow(before, after)
}

/// What a key does: on the help page, Ctrl+G or Esc goes back and Ctrl+C
/// cancels; on the inputs, Ctrl+G opens help, Esc or Ctrl+C cancels,
/// Ctrl+S saves and submits, Tab, Shift+Tab and the arrows move, and the
/// other keys go to what has the focus: Enter saves and moves on (Ctrl+Enter
/// in a textarea), Ctrl+R asks for the panes again or lets a failed
/// candidate command run again, and the rest is typing (which, in the
/// workflow chooser, forgets its error).
pub open spec fn key_handled(
    before: InputScreen,
    after: InputScreen,
    key: Key,
    textarea_moved: bool,
    loaded: Option<Result<Workflow, String>>,
    res: KeyOutcome,
) -> bool {
    match before.page_view() {
        Page::Help => match key {
            Key::Control('g') | Key::Esc => page_switched(before, after, Page::Input) && res == KeyOutcome::Redraw,
            Key::Control('c') => same_screen(before, after) && res == KeyOutcome::Cancel,
            _ => same_screen(before, after) && res == KeyOutcome::Redraw,
        },
        Page::Input => if key == Key::Control('g') {
            page_switched(before, after, Page::Help) && res == KeyOutcome::Redraw
        } else if key == Key::Esc || key == Key::Control('c') {
            same_screen(before, after) && res == KeyOutcome::Cancel
        } else if key == Key::Control('s') {
            exists|action: ScreenAction|
                #[trigger] saved_and_submitted(before, after, action, loaded) && res == if action
                    == ScreenAction::Submit {
                    KeyOutcome::Submit
                } else {
                    KeyOutcome::Redraw
                }
        } else if key_direction(key) is Some {
            navigated_screen(before, after, key_direction(key).unwrap(), textarea_moved, loaded) && res
                == KeyOutcome::Redraw
        } else {
            match before.focus_view() {
                Focus::Target => if key == Key::Control('r') {
                    same_screen(before, after) && res == if before.target_view().state_view() is Loading {
                        KeyOutcome::Redraw
                    } else {
                        KeyOutcome::RequestRefresh
                    }
                } else if key == Key::Enter {
                    advanced(before, after, loaded) && res == KeyOutcome::Redraw
                } else {
                    same_screen(before, after) && res == KeyOutcome::EditTarget
                },
                Focus::Workflow => if key == Key::Enter {
                    advanced(before, after, loaded) && res == KeyOutcome::Redraw
                } else {
                    workflow_error_cleared(before, after) && res == KeyOutcome::EditWorkflow
                },
                Focus::Field(i) => {
                    let f = before.fields_view()[i as int];
                    if (key == Key::ControlEnter && f.control_view() is Textarea) || (key == Key::Enter
                        && !(f.control_view() is Textarea)) {
                        advanced(before, after, loaded) && res == KeyOutcome::Redraw
                    } else if key == Key::Control('r') && f.load_state_view() matches Some(
                        crate::field::LoadState::Failed(_),
                    ) {
                        &&& retried(f, after.fields_view()[i as int])
                        &&& after.fields_view() == before.fields_view().update(i as int, after.fields_view()[i as int])
                        &&& unchanged_but_focus_and_fields(before, after)
                        &&& after.focus_view() == before.focus_view()
                        &&& res == KeyOutcome::Redraw
                    } else if f.load_state_view() matches Some(crate::field::LoadState::Loading) {
                        same_screen(before, after) && res == KeyOutcome::Redraw
                    } else {
                        same_screen(before, after) && res == KeyOutcome::EditField(i)
                    }
                },
            }
        },
    }
}

/// Everything but the focus and the inputs stays.
pub open spec fn unchanged_but_focus_and_fields(a: InputScreen, b: InputScreen) -> bool {
    &&& b.workflow_view() == a.workflow_view()
    &&& b.page_view() == a.page_view()
    &&& b.target_view() == a.target_view()
    &&& b.running_view() == a.running_view()
    &&& b.next_id_view() == a.next_id_view()
    &&& b.show_errors_view() == a.show_errors_view()
}

impl InputScreen {
    /// Handles a key press; a textarea that has the focus says in
    /// `textarea_moved` whether it moved between its lines for the key, and
    /// a workflow file to save is loaded with `load`.
    pub fn process_key<F: Fn(String) -> Result<Workflow, String>>(
        &mut self,
        key: Key,
        textarea_moved: bool,
        load: &F,
    ) -> (res: KeyOutcome)
        requires
            old(self).wf(),
            forall|path: String| call_requires(*load, (path,)),
        ensures
            final(self).wf(),
            exists|loaded: Option<Result<Workflow, String>>|
                #[trigger] key_handled(*old(self), *final(self), key, textarea_moved, loaded, res)
                    && loaded_from(*load, loaded, final(self).workflow_view()),
    {
        let ghost before = *self;
        if self.page == Page::Help {
            return match key {
                Key::Control('g') | Key::Esc => {
                    self.page = Page::Input;
                    assert(key_handled(before, *self, key, textarea_moved, None, KeyOutcome::Redraw));
                    KeyOutcome::Redraw
                },
                Key::Control('c') => {
                    assert(key_handled(before, *self, key, textarea_moved, None, KeyOutcome::Cancel));
                    KeyOutcome::Cancel
                },
                _ => {
                    assert(key_handled(before, *self, key, textarea_moved, None, KeyOutcome::Redraw));
                    KeyOutcome::Redraw
                },
            };
        }
        if key == Key::Control('g') {
            self.page = Page::Help;
            assert(key_handled(before, *self, key, textarea_moved, None, KeyOutcome::Redraw));
            return KeyOutcome::Redraw;
        }
        if key == Key::Esc || key == Key::Control('c') {
            assert(key_handled(before, *self, key, textarea_moved, None, KeyOutcome::Cancel));
            return KeyOutcome::Cancel;
        }
        if key == Key::Control('s') {
            let action = self.save_focused_and_submit(load);
            let res = if action == ScreenAction::Submit {
                KeyOutcome::Submit
            } else {
                KeyOutcome::Redraw
            };
            proof {
                let loaded = choose|loaded: Option<Result<Workflow, String>>|
                    #[trigger] saved_and_submitted(before, *self, action, loaded) && loaded_from(*load, loaded, self.workflow_view());
                assert(key_handled(before, *self, key, textarea_moved, loaded, res));
            }
            return res;
        }
        let direction = navigation_direction(key);
        if let Some(d) = direction {
            self.navigate(d, textarea_moved, load);
            proof {
                let loaded = choose|loaded: Option<Result<Workflow, String>>|
                    #[trigger] navigated_screen(before, *self, d, textarea_moved, loaded) && loaded_from(*load, loaded, self.workflow_view());
                assert(key_handled(before, *self, key, textarea_moved, loaded, KeyOutcome::Redraw));
            }
            return KeyOutcome::Redraw;
        }
        match self.focus {
            Focus::Target => {
                if key == Key::Control('r') {
                    let res = if self.target.is_loading() {
                        KeyOutcome::Redraw
                    } else {
                        KeyOutcome::RequestRefresh
                    };
                    assert(key_handled(before, *self, key, textarea_moved, None, res));
                    res
                } else if key == Key::Enter {
                    self.advance_with(load, key, textarea_moved)
                } else {
                    assert(key_handled(before, *self, key, textarea_moved, None, KeyOutcome::EditTarget));
                    KeyOutcome::EditTarget
                }
            },
            Focus::Workflow => {
                if key == Key::Enter {
                    self.advance_with(load, key, textarea_moved)
                } else {
                    self.workflow.clear_error();
                    assert(workflow_error_cleared(before, *self));
                    assert(key_handled(before, *self, key, textarea_moved, None, KeyOutcome::EditWorkflow));
                    KeyOutcome::EditWorkflow
                }
            },
            Focus::Field(i) => {
                let textarea = self.fields[i].is_textarea();
                if (key == Key::ControlEnter && textarea) || (key == Key::Enter && !textarea) {
                    self.advance_with(load, key, textarea_moved)
                } else if key == Key::Control('r') && self.fields[i].error_message().is_some() {
                    let mut field = self.fields.remove(i);
                    field.retry();
                    self.fields.insert(i, field);
                    assert(self.fields@ =~= before.fields_view().update(i as int, field));
                    assert(key_handled(before, *self, key, textarea_moved, None, KeyOutcome::Redraw));
                    KeyOutcome::Redraw
                } else if self.fields[i].is_loading() {
                    assert(key_handled(before, *self, key, textarea_moved, None, KeyOutcome::Redraw));
                    KeyOutcome::Redraw
                } else {
                    assert(key_handled(before, *self, key, textarea_moved, None, KeyOutcome::EditField(i)));
                    KeyOutcome::EditField(i)
                }
            },
        }
    }

    /// Saves what has the focus and moves on, for a key that does so.
    fn advance_with<F: Fn(String) -> Result<Workflow, String>>(
        &mut self,
        load: &F,
        key: Key,
        textarea_moved: bool,
    ) -> (res: KeyOutcome)
        requires
            old(self).wf(),
            forall|path: String| call_requires(*load, (path,)),
            old(self).page_view() == Page::Input,
            key_direction(key) is None,
            key != Key::Control('g') && key != Key::Esc && key != Key::Control('c') && key != Key::Control('s'),
            match old(self).focus_view() {
                Focus::Target => key == Key::Enter,
                Focus::Workflow => key == Key::Enter,
                Focus::Field(i) => {
                    let f = old(self).fields_view()[i as int];
                    (key == Key::ControlEnter && f.control_view() is Textarea) || (key == Key::Enter
                        && !(f.control_view() is Textarea))
                },
            },
        ensures
            final(self).wf(),
            res == KeyOutcome::Redraw,
            exists|loaded: Option<Result<Workflow, String>>|
                #[trigger] key_handled(*old(self), *final(self), key, textarea_moved, loaded, res)
                    && loaded_from(*load, loaded, final(self).workflow_view()),
    {
        let ghost before = *self;
        self.save_and_advance(load);
        proof {
            let loaded = choose|loaded: Option<Result<Workflow, String>>| #[trigger] advanced(before, *self, loaded) && loaded_from(*load, loaded, self.workflow_view());
            assert(key_handled(before, *self, key, textarea_moved, loaded, KeyOutcome::Redraw));
        }
        KeyOutcome::Redraw
    }
}


/// `after` is `before` with the destination tree's pane at `row` selected
/// where there is one, as `res` says.
pub open spec fn target_picked(before: InputScreen, after: InputScreen, row: usize, res: bool) -> bool {
    let t = before.target_view().select_view();
    &&& tree_changed(before.target_view(), after.target_view())
    &&& crate::tree_select::same_content(after.target_view().select_view(), t)
    &&& after.target_view().select_view().viewport_view() == t.viewport_view()
    &&& after.target_view().select_view().scrolled_view() == t.scrolled_view()
    &&& res == t.candidate_at(row as nat) is Some
    &&& after.target_view().select_view().selected_view() == match t.candidate_at(row as nat) {
        Some(p) => Some(p),
        None => t.selected_view(),
    }
    &&& after.focus_view() == before.focus_view()
    &&& after.workflow_view() == before.workflow_view()
    &&& after.fields_view() == before.fields_view()
}

/// What a click does: on a value, the focus moves there; on a candidate
/// of what has the focus, that candidate is selected, saved and the focus
/// moves on; on an input's row, the focus moves to it; on an editor of what
/// has the focus, its cursor moves there.
pub open spec fn click_handled(
    before: InputScreen,
    after: InputScreen,
    click: Click,
    loaded: Option<Result<Workflow, String>>,
    res: ClickOutcome,
) -> bool {
    match click {
        Click::TargetValue => focused_on(before, after, Focus::Target, loaded) && res == ClickOutcome::Redraw,
        Click::WorkflowValue => focused_on(before, after, Focus::Workflow, loaded) && res
            == ClickOutcome::Redraw,
        Click::FieldRow(row) => res == ClickOutcome::Redraw && if row < before.fields_view().len() {
            focused_on(before, after, Focus::Field(row), loaded)
        } else {
            same_screen(before, after)
        },
        Click::TargetEditor => same_screen(before, after) && res == if before.focus_view() == Focus::Target {
            ClickOutcome::MoveTargetCursor
        } else {
            ClickOutcome::Redraw
        },
        Click::WorkflowEditor => same_screen(before, after) && res == if before.focus_view()
            == Focus::Workflow {
            ClickOutcome::MoveWorkflowCursor
        } else {
            ClickOutcome::Redraw
        },
        Click::FieldEditor => same_screen(before, after) && res == match before.focus_view() {
            Focus::Field(i) => ClickOutcome::MoveFieldCursor(i),
            _ => ClickOutcome::Redraw,
        },
        Click::TargetCandidate(row) => res == ClickOutcome::Redraw && if before.focus_view() == Focus::Target {
            exists|mid: InputScreen, picked: bool|
                #[trigger] target_picked(before, mid, row, picked) && mid.wf() && mid.page_view()
                    == before.page_view() && mid.running_view() == before.running_view()
                    && mid.next_id_view() == before.next_id_view() && mid.show_errors_view()
                    == before.show_errors_view() && if picked {
                    advanced(mid, after, loaded)
                } else {
                    same_screen(mid, after)
                }
        } else {
            same_screen(before, after)
        },
        Click::WorkflowCandidate(row) => res == ClickOutcome::Redraw && if before.focus_view()
            == Focus::Workflow {
            let w = before.workflow_view();
            exists|mid: InputScreen|
                #[trigger] same_but_workflow(before, mid) && mid.workflow_view().select_view().items()
                    == w.select_view().items() && mid.workflow_view().select_view().query()
                    == w.select_view().query() && mid.workflow_view().selection_view()
                    == w.selection_view() && mid.workflow_view().selected_workflow()
                    == w.selected_workflow() && mid.workflow_view().error_view() == w.error_view()
                    && if row < w.select_view().suggestions().len() {
                    mid.workflow_view().select_view().selected_position() == Some(row) && advanced(
                        mid,
                        after,
                        loaded,
                    )
                } else {
                    mid.workflow_view().select_view().selected_position()
                        == w.select_view().selected_position() && same_screen(mid, after)
                }
        } else {
            same_screen(before, after)
        },
        Click::FieldCandidate(row) => res == ClickOutcome::Redraw && match before.focus_view() {
            Focus::Field(i) => exists|mid: InputScreen, picked: bool|
                #[trigger] field_picked(before.fields_view()[i as int], mid.fields_view()[i as int], row, picked)
                    && mid.fields_view() == before.fields_view().update(i as int, mid.fields_view()[i as int])
                    && mid.focus_view() == before.focus_view() && unchanged_but_focus_and_fields(before, mid)
                    && if picked {
                    advanced(mid, after, loaded)
                } else {
                    same_screen(mid, after)
                },
            _ => same_screen(before, after),
        },
        Click::Elsewhere => same_screen(before, after) && res == ClickOutcome::Redraw,
    }
}

/// Everything but the workflow chooser stays.
pub open spec fn same_but_workflow(a: InputScreen, b: InputScreen) -> bool {
    &&& b.focus_view() == a.focus_view()
    &&& b.fields_view() == a.fields_view()
    &&& b.page_view() == a.page_view()
    &&& b.target_view() == a.target_view()
    &&& b.running_view() == a.running_view()
    &&& b.next_id_view() == a.next_id_view()
    &&& b.show_errors_view() == a.show_errors_view()
}

impl InputScreen {
    /// Handles a click; a workflow file to save is loaded with `load`.
    pub fn process_click<F: Fn(String) -> Result<Workflow, String>>(&mut self, click: Click, load: &F) -> (res:
        ClickOutcome)
        requires
            old(self).wf(),
            forall|path: String| call_requires(*load, (path,)),
        ensures
            final(self).wf(),
            exists|loaded: Option<Result<Workflow, String>>|
                #[trigger] click_handled(*old(self), *final(self), click, loaded, res) && loaded_from(*load, loaded, final(self).workflow_view()),
    {
        let ghost before = *self;
        match click {
            Click::TargetValue | Click::WorkflowValue => {
                let focus = if click == Click::TargetValue {
                    Focus::Target
                } else {
                    Focus::Workflow
                };
                self.focus_on(focus, load);
                proof {
                    let loaded = choose|loaded: Option<Result<Workflow, String>>|
                        #[trigger] focused_on(before, *self, focus, loaded) && loaded_from(*load, loaded, self.workflow_view());
                    assert(click_handled(before, *self, click, loaded, ClickOutcome::Redraw));
                }
                ClickOutcome::Redraw
            },
            Click::FieldRow(row) => {
                if row < self.fields.len() {
                    self.focus_on(Focus::Field(row), load);
                    proof {
                        let loaded = choose|loaded: Option<Result<Workflow, String>>|
                            #[trigger] focused_on(before, *self, Focus::Field(row), loaded) && loaded_from(*load, loaded, self.workflow_view());
                        assert(click_handled(before, *self, click, loaded, ClickOutcome::Redraw));
                    }
                } else {
                    assert(click_handled(before, *self, click, None, ClickOutcome::Redraw));
                }
                ClickOutcome::Redraw
            },
            Click::TargetEditor => {
                let res = if self.focus == Focus::Target {
                    ClickOutcome::MoveTargetCursor
                } else {
                    ClickOutcome::Redraw
                };
                assert(click_handled(before, *self, click, None, res));
                res
            },
            Click::WorkflowEditor => {
                let res = if self.focus == Focus::Workflow {
                    ClickOutcome::MoveWorkflowCursor
                } else {
                    ClickOutcome::Redraw
                };
                assert(click_handled(before, *self, click, None, res));
                res
            },
            Click::FieldEditor => {
                let res = match self.focus {
                    Focus::Field(i) => ClickOutcome::MoveFieldCursor(i),
                    _ => ClickOutcome::Redraw,
                };
                assert(click_handled(before, *self, click, None, res));
                res
            },
            Click::TargetCandidate(row) => {
                if self.focus != Focus::Target {
                    assert(click_handled(before, *self, click, None, ClickOutcome::Redraw));
                    return ClickOutcome::Redraw;
                }
                let picked = self.target.select_at(row);
                let ghost mid = *self;
                assert(target_picked(before, mid, row, picked));
                if picked {
                    self.save_and_advance(load);
                    proof {
                        let loaded = choose|loaded: Option<Result<Workflow, String>>| #[trigger] advanced(mid, *self, loaded) && loaded_from(*load, loaded, self.workflow_view());
                        assert(click_handled(before, *self, click, loaded, ClickOutcome::Redraw));
                    }
                } else {
                    assert(click_handled(before, *self, click, None, ClickOutcome::Redraw));
                }
                ClickOutcome::Redraw
            },
            Click::WorkflowCandidate(row) => {
                if self.focus != Focus::Workflow {
                    assert(click_handled(before, *self, click, None, ClickOutcome::Redraw));
                    return ClickOutcome::Redraw;
                }
                let picked = self.workflow.select_at(row);
                let ghost mid = *self;
                assert(same_but_workflow(before, mid));
                if picked {
                    self.save_and_advance(load);
                    proof {
                        let loaded = choose|loaded: Option<Result<Workflow, String>>| #[trigger] advanced(mid, *self, loaded) && loaded_from(*load, loaded, self.workflow_view());
                        assert(click_handled(before, *self, click, loaded, ClickOutcome::Redraw));
                    }
                } else {
                    assert(click_handled(before, *self, click, None, ClickOutcome::Redraw));
                }
                ClickOutcome::Redraw
            },
            Click::FieldCandidate(row) => {
                let i = match self.focus {
                    Focus::Field(i) => i,
                    _ => {
                        assert(click_handled(before, *self, click, None, ClickOutcome::Redraw));
                        return ClickOutcome::Redraw;
                    },
                };
                let mut field = self.fields.remove(i);
                let picked = field.select_at(row);
                self.fields.insert(i, field);
                assert(self.fields@ =~= before.fields_view().update(i as int, field));
                let ghost mid = *self;
                assert(field_picked(before.fields_view()[i as int], mid.fields_view()[i as int], row, picked));
                assert(unchanged_but_focus_and_fields(before, mid));
                if picked {
                    self.save_and_advance(load);
                    proof {
                        let loaded = choose|loaded: Option<Result<Workflow, String>>| #[trigger] advanced(mid, *self, loaded) && loaded_from(*load, loaded, self.workflow_view());
                        assert(click_handled(before, *self, click, loaded, ClickOutcome::Redraw));
                    }
                } else {
                    assert(same_screen(mid, *self));
                    assert(click_handled(before, *self, click, None, ClickOutcome::Redraw));
                }
                ClickOutcome::Redraw
            },
            Click::Elsewhere => {
                assert(click_handled(before, *self, click, None, ClickOutcome::Redraw));
                ClickOutcome::Redraw
            },
        }
    }
}


/// The input whose candidate command is due to run: the focused one,
/// where no command runs, its candidates are not loaded, and every input
/// it waits for has a value.
pub open spec fn task_due(s: InputScreen) -> Option<usize> {
    match s.focus_view() {
        Focus::Field(i) => {
            let f = s.fields_view()[i as int];
            if s.running_view() is None && (f.load_state_view() matches Some(
                crate::field::LoadState::Unloaded,
            )) && missing(f.dependencies(), s.saved().dom()).len() == 0 {
                Some(i)
            } else {
                None
            }
        },
        _ => None,
    }
}

/// `after_screen` is `before_screen` after the candidate command of input
/// `i` is prepared: it runs under the next id where it could be prepared,
/// else the input shows the error; `res` is what to run.
pub open spec fn task_started(
    before_screen: InputScreen,
    after_screen: InputScreen,
    i: usize,
    res: Option<(u64, String, Vec<String>)>,
) -> bool {
    let before = before_screen.fields_view()[i as int];
    let after = after_screen.fields_view()[i as int];
    &&& after_screen.fields_view() == before_screen.fields_view().update(i as int, after)
    &&& after_screen.workflow_view() == before_screen.workflow_view()
    &&& after_screen.target_view() == before_screen.target_view()
    &&& after_screen.page_view() == before_screen.page_view()
    &&& after_screen.show_errors_view() == before_screen.show_errors_view()
    &&& exists|mid: InputField, prep: Result<Option<(String, Vec<String>)>, String>|
        #[trigger] prepared(before, mid, before_screen.saved(), prep) && match prep {
            Ok(Some((program, args))) => {
                &&& after == mid
                &&& res == Some((before_screen.next_id_view(), program, args))
                &&& after_screen.running_view() == Some((before_screen.next_id_view(), i))
                &&& after_screen.next_id_view() == if before_screen.next_id_view() == u64::MAX {
                    0
                } else {
                    (before_screen.next_id_view() + 1) as u64
                }
            },
            Ok(None) => {
                &&& after == mid
                &&& res is None
                &&& after_screen.running_view() == before_screen.running_view()
                &&& after_screen.next_id_view() == before_screen.next_id_view()
            },
            Err(m) => {
                &&& loaded_with(mid, after, Err(m))
                &&& res is None
                &&& after_screen.running_view() == before_screen.running_view()
                &&& after_screen.next_id_view() == before_screen.next_id_view()
            },
        }
}

impl InputScreen {
    /// Prepares the candidate command that is due, if any: the id it runs
    /// under, the program and its arguments. It then counts as running.
    /// Where its templates fail, the input shows the error instead.
    pub fn start_active_task(&mut self) -> (res: Option<(u64, String, Vec<String>)>)
        requires
            old(self).wf(),
        ensures
            final(self).wf(),
            final(self).focus_view() == old(self).focus_view(),
            match task_due(*old(self)) {
                None => same_screen(*old(self), *final(self)) && res is None,
                Some(i) => task_started(*old(self), *final(self), i, res),
            },
    {
        let ghost start = *self;
        let i = match self.focus {
            Focus::Field(i) => i,
            _ => return None,
        };
        let values = self.saved_values();
        if self.running_task.is_some() || !self.fields[i].needs_load() || self.fields[i].missing_dependencies(&values).len() > 0 {
            return None;
        }
        let ghost before_fields = self.fields@;
        let mut field = self.fields.remove(i);
        let prep = field.command_task(&values);
        let ghost mid = field;
        let ghost prep_view = prep;
        let res = match prep {
            Ok(Some((program, args))) => {
                let id = self.next_task_id;
                self.next_task_id = if id == u64::MAX {
                    0
                } else {
                    id + 1
                };
                self.running_task = Some(RunningTask { id, field: i });
                Some((id, program, args))
            },
            Ok(None) => None,
            Err(e) => {
                field.finish_load(Err(e));
                None
            },
        };
        self.fields.insert(i, field);
        assert(self.fields@ =~= before_fields.update(i as int, field));
        assert(prepared(before_fields[i as int], mid, values@, prep_view));
        assert(values@ == start.saved());
        assert(prepared(start.fields_view()[i as int], mid, start.saved(), prep_view));
        let ghost after = self.fields_view()[i as int];
        assert(exists|m: InputField, p: Result<Option<(String, Vec<String>)>, String>|
            #[trigger] prepared(start.fields_view()[i as int], m, start.saved(), p) && match p {
            Ok(Some((program, args))) => {
                &&& after == m
                &&& res == Some((start.next_id_view(), program, args))
                &&& self.running_view() == Some((start.next_id_view(), i))
                &&& self.next_id_view() == if start.next_id_view() == u64::MAX {
                    0
                } else {
                    (start.next_id_view() + 1) as u64
                }
            },
            Ok(None) => {
                &&& after == m
                &&& res is None
                &&& self.running_view() == start.running_view()
                &&& self.next_id_view() == start.next_id_view()
            },
            Err(e) => {
                &&& loaded_with(m, after, Err(e))
                &&& res is None
                &&& self.running_view() == start.running_view()
                &&& self.next_id_view() == start.next_id_view()
            },
        }) by {
            assert(prepared(start.fields_view()[i as int], mid, start.saved(), prep_view));
        }
        assert(task_started(start, *self, i, res));
        res
    }
}


/// What a command's output becomes: its candidates, or the error.
pub open spec fn outcome_candidates(result: Result<String, String>, values: Result<Vec<String>, String>) -> bool {
    match (result, values) {
        (Ok(output), Ok(vs)) => string_views(vs@) == candidate_lines(lines_of(output@)),
        (Err(e), Err(f)) => e == f,
        _ => false,
    }
}

impl InputScreen {
    /// Takes in what the command with id `id` gave: where it is the running
    /// command, its input takes in the candidates of its output, or the
    /// error, and no command runs any more; anything else is ignored.
    pub fn apply_task_event(&mut self, id: u64, result: Result<String, String>)
        requires
            old(self).wf(),
        ensures
            final(self).wf(),
            match old(self).running_view() {
                Some((running, i)) if running == id => {
                    let after = final(self).fields_view()[i as int];
                    &&& final(self).running_view() is None
                    &&& final(self).fields_view() == old(self).fields_view().update(i as int, after)
                    &&& exists|values: Result<Vec<String>, String>|
                        #[trigger] outcome_candidates(result, values) && loaded_with(
                            old(self).fields_view()[i as int],
                            after,
                            values,
                        )
                },
                _ => same_screen(*old(self), *final(self)),
            },
            final(self).focus_view() == old(self).focus_view(),
            final(self).workflow_view() == old(self).workflow_view(),
            final(self).target_view() == old(self).target_view(),
            final(self).page_view() == old(self).page_view(),
            final(self).next_id_view() == old(self).next_id_view(),
            final(self).show_errors_view() == old(self).show_errors_view(),
    {
        let task = match self.running_task {
            Some(t) => t,
            None => return,
        };
        if task.id != id {
            return;
        }
        self.running_task = None;
        let values = match result {
            Ok(output) => Ok(decode_candidates(output.as_str())),
            Err(e) => Err(e),
        };
        let ghost values_view = values;
        let ghost before = self.fields@;
        let mut field = self.fields.remove(task.field);
        field.finish_load(values);
        self.fields.insert(task.field, field);
        assert(self.fields@ =~= before.update(task.field as int, field));
        assert(outcome_candidates(result, values_view));
    }
}


/// How a status line looks.
#[derive(Clone, Copy, Debug, PartialEq, Eq, Structural)]
pub enum Tone {
    Progress,
    Warning,
    Error,
}

/// A line under a section: its text, its tone, and whether a spinner goes
/// before it.
pub struct StatusMessage {
    pub text: String,
    pub tone: Tone,
    pub spinner: bool,
}

/// `names` joined by `, `.
pub open spec fn joined(names: Seq<Seq<char>>) -> Seq<char>
    decreases names.len(),
{
    if names.len() == 0 {
        Seq::empty()
    } else if names.len() == 1 {
        names[0]
    } else {
        joined(names.drop_last()) + ", "@ + names.last()
    }
}

/// The marker of a section: it has the focus, it is set, or neither.
pub open spec fn marker(focused: bool, set: bool) -> char {
    if focused {
        '▶'
    } else if set {
        '✓'
    } else {
        '○'
    }
}

/// The line of a section's value.
pub open spec fn value_line(focused: bool, set: bool, label: Seq<char>) -> Seq<char> {
    seq![marker(focused, set), ' '] + compact_text(label) + seq!['\n']
}

fn line_of(focused: bool, set: bool, label: &str) -> (res: String)
    ensures
        res@ == value_line(focused, set, label@),
{
    let mut text: Vec<char> = Vec::new();
    text.push(
        if focused {
            '▶'
        } else if set {
            '✓'
        } else {
            '○'
        },
    );
    text.push(' ');
    push_all(&mut text, &chars_of(compact_value(label).as_str()));
    text.push('\n');
    string_from_chars(&text)
}

/// The text of an input's line: its marker, title and value; the focused
/// one shows its draft where it has one.
pub open spec fn field_line_text(f: InputField, focused: bool) -> Seq<char> {
    let shown = if focused && f.draft_view() is Some {
        compact_text(f.draft_view().unwrap())
    } else {
        match f.value_view() {
            Some(v) => compact_text(v),
            None => seq!['—'],
        }
    };
    seq![marker(focused, f.value_view() is Some), ' '] + f.title_view() + ": "@ + shown
}

impl InputScreen {
    /// The destination's line.
    pub fn target_line(&self) -> (res: String)
        ensures
            res@ == value_line(
                self.focus_view() == Focus::Target,
                self.target_view().selected_view() is Some,
                match self.target_view().selected_view() {
                    Some(t) => crate::display::terminal_label_text(t),
                    None => "not set"@,
                },
            ),
    {
        line_of(self.focus == Focus::Target, self.target.selected().is_some(), self.target.value_label().as_str())
    }

    /// The workflow's line.
    pub fn workflow_line(&self) -> (res: String)
        ensures
            res@ == value_line(
                self.focus_view() == Focus::Workflow,
                self.workflow_view().selected_workflow() is Some,
                match self.workflow_view().selection_view() {
                    Some((_, file_name, name)) => name + " — "@ + file_name,
                    None => "not set"@,
                },
            ),
    {
        line_of(self.focus == Focus::Workflow, self.workflow.selected().is_some(), self.workflow.value_label().as_str())
    }

    /// The line of input `index`.
    pub fn field_line(&self, index: usize) -> (res: String)
        requires
            index < self.fields_view().len(),
        ensures
            res@ == field_line_text(self.fields_view()[index as int], self.focus_view() == Focus::Field(index)),
    {
        let field = &self.fields[index];
        let focused = self.focus == Focus::Field(index);
        let shown = match (focused, field.draft()) {
            (true, Some(d)) => compact_value(d.as_str()),
            _ => match field.value() {
                Some(v) => compact_value(v),
                None => empty_value(),
            },
        };
        let mut text: Vec<char> = Vec::new();
        text.push(
            if focused {
                '▶'
            } else if field.value().is_some() {
                '✓'
            } else {
                '○'
            },
        );
        text.push(' ');
        push_all(&mut text, &chars_of(field.title()));
        push_all(&mut text, &chars_of(": "));
        push_all(&mut text, &chars_of(shown.as_str()));
        string_from_chars(&text)
    }

    /// What the destination section has to say: the refresh's state, or
    /// that a destination is required.
    pub fn target_status(&self) -> (res: Option<StatusMessage>)
        ensures
            match status_text(self.target_view().state_view(), self.target_view().last_view()) {
                Some(m) => res matches Some(s) && s.text@ == m && s.spinner == self.target_view().state_view() is Loading
                    && s.tone == if self.target_view().state_view() is Loading {
                    Tone::Progress
                } else {
                    Tone::Warning
                },
                None => if self.show_errors_view() && self.target_view().selected_view() is None {
                    res matches Some(s) && s.text@ == "destination is required"@ && s.tone == Tone::Error
                        && !s.spinner
                } else {
                    res is None
                },
            },
    {
        let loading = self.target.is_loading();
        if let Some(m) = self.target.status_message() {
            return Some(StatusMessage { text: m, tone: if loading { Tone::Progress } else { Tone::Warning }, spinner: loading });
        }
        if self.show_required_errors && self.target.selected().is_none() {
            return Some(StatusMessage { text: string_from_chars(&chars_of("destination is required")), tone: Tone::Error, spinner: false });
        }
        None
    }

    /// What the workflow section has to say while it has the focus: why
    /// the file failed to load, or that a workflow is required.
    pub fn workflow_status(&self) -> (res: Option<StatusMessage>)
        ensures
            if self.focus_view() != Focus::Workflow {
                res is None
            } else {
                match self.workflow_view().error_view() {
                    Some(e) => res matches Some(s) && s.text@ == "✗ "@ + e && s.tone == Tone::Error && !s.spinner,
                    None => if self.show_errors_view() && self.workflow_view().selected_workflow() is None {
                        res matches Some(s) && s.text@ == "workflow is required"@ && s.tone == Tone::Error
                            && !s.spinner
                    } else {
                        res is None
                    },
                }
            },
    {
        if self.focus != Focus::Workflow {
            return None;
        }
        if let Some(e) = self.workflow.error_message() {
            let mut text = chars_of("✗ ");
            push_all(&mut text, &chars_of(e));
            return Some(StatusMessage { text: string_from_chars(&text), tone: Tone::Error, spinner: false });
        }
        if self.show_required_errors && self.workflow.selected().is_none() {
            return Some(StatusMessage { text: string_from_chars(&chars_of("workflow is required")), tone: Tone::Error, spinner: false });
        }
        None
    }
}


/// The custom value of a field: the select's query where it matches no
/// candidate.
pub open spec fn custom_of(f: InputField) -> Option<Seq<char>> {
    match f.control_view() {
        FieldControl::Select(c) => if c.select.suggestions().len() == 0 && c.select.query().len() > 0 {
            Some(c.select.query())
        } else {
            None
        },
        FieldControl::Textarea(_) => None,
    }
}

/// What an input has to say, in this order: that its candidates load;
/// that Enter keeps the query typed where it matches no candidate; why its
/// candidates failed to load; that it is required; which inputs it waits
/// for.
pub open spec fn field_status_text(f: InputField, show_errors: bool, saved: Map<Seq<char>, Seq<char>>) -> Option<(Seq<char>, Tone, bool)> {
    let failed = f.load_state_view() matches Some(LoadState::Failed(_));
    if f.load_state_view() matches Some(LoadState::Loading) {
        Some(("Loading "@ + f.title_view() + "…"@, Tone::Progress, true))
    } else if custom_of(f) is Some {
        Some((
            "No candidate — Enter uses “"@ + compact_text(custom_of(f).unwrap()) + "”"@ + if failed {
                " · Ctrl+R retries candidates"@
            } else {
                Seq::empty()
            },
            Tone::Warning,
            false,
        ))
    } else if failed {
        Some(("✗ "@ + f.load_state_view().unwrap()->Failed_0@ + "\nPress Ctrl+R to retry"@, Tone::Error, false))
    } else if show_errors && !f.allow_empty_view() && f.value_view() is None {
        Some((f.title_view() + " is required"@, Tone::Error, false))
    } else if missing(f.dependencies(), saved.dom()).len() > 0 {
        Some(("Complete "@ + joined(missing(f.dependencies(), saved.dom())) + " first"@, Tone::Warning, false))
    } else {
        None
    }
}

impl InputScreen {
    /// What input `index` has to say.
    pub fn field_status(&self, index: usize) -> (res: Option<StatusMessage>)
        requires
            index < self.fields_view().len(),
        ensures
            match field_status_text(self.fields_view()[index as int], self.show_errors_view(), self.saved()) {
                Some((text, tone, spinner)) => res matches Some(s) && s.text@ == text && s.tone == tone
                    && s.spinner == spinner,
                None => res is None,
            },
    {
        let field = &self.fields[index];
        if let Some(m) = field.loading_message() {
            return Some(StatusMessage { text: m, tone: Tone::Progress, spinner: true });
        }
        if let Some(value) = field.custom_value() {
            let mut text = chars_of("No candidate — Enter uses “");
            push_all(&mut text, &chars_of(compact_value(value.as_str()).as_str()));
            push_all(&mut text, &chars_of("”"));
            if field.error_message().is_some() {
                push_all(&mut text, &chars_of(" · Ctrl+R retries candidates"));
            }
            return Some(StatusMessage { text: string_from_chars(&text), tone: Tone::Warning, spinner: false });
        }
        if let Some(e) = field.error_message() {
            let mut text = chars_of("✗ ");
            push_all(&mut text, &chars_of(e));
            push_all(&mut text, &chars_of("\nPress Ctrl+R to retry"));
            return Some(StatusMessage { text: string_from_chars(&text), tone: Tone::Error, spinner: false });
        }
        if self.show_required_errors && field.is_required() && field.value().is_none() {
            let mut text = chars_of(field.title());
            push_all(&mut text, &chars_of(" is required"));
            return Some(StatusMessage { text: string_from_chars(&text), tone: Tone::Error, spinner: false });
        }
        let missing_names = field.missing_dependencies(&self.saved_values());
        if missing_names.len() > 0 {
            let mut text = chars_of("Complete ");
            let mut k: usize = 0;
            let ghost names = string_views(missing_names@);
            while k < missing_names.len()
                invariant
                    k <= missing_names.len(),
                    names == string_views(missing_names@),
                    text@ == "Complete "@ + joined(names.take(k as int)),
                decreases missing_names.len() - k,
            {
                if k > 0 {
                    push_all(&mut text, &chars_of(", "));
                }
                push_all(&mut text, &chars_of(missing_names[k].as_str()));
                k += 1;
                assert(names.take(k as int).drop_last() =~= names.take(k - 1));
            }
            assert(names.take(names.len() as int) =~= names);
            push_all(&mut text, &chars_of(" first"));
            return Some(StatusMessage { text: string_from_chars(&text), tone: Tone::Warning, spinner: false });
        }
        None
    }
}


/// What is handed over on submitting.
pub struct Submission {
    pub target: crate::display::TerminalTarget,
    pub workflow: Workflow,
    pub values: Values,
}

/// `after` is `before` after a turn of the mouse wheel, up or down: it
/// scrolls the destination tree, forgets the workflow's error, or moves the
/// focus to the previous or next input, without going past the first or
/// last, as a click on it would.
pub open spec fn wheeled(before: InputScreen, after: InputScreen, up: bool) -> bool {
    match before.focus_view() {
        Focus::Target => {
            &&& tree_changed(before.target_view(), after.target_view())
            &&& crate::tree_select::same_content(
                after.target_view().select_view(),
                before.target_view().select_view(),
            )
            &&& after.target_view().select_view().selected_view() == before.target_view().select_view().selected_view()
            &&& same_but_target(before, after)
        },
        Focus::Workflow => {
            &&& after.workflow_view().select_view() == before.workflow_view().select_view()
            &&& after.workflow_view().selection_view() == before.workflow_view().selection_view()
            &&& after.workflow_view().selected_workflow() == before.workflow_view().selected_workflow()
            &&& after.workflow_view().error_view() is None
            &&& same_but_workflow(before, after)
        },
        Focus::Field(i) => exists|loaded: Option<Result<Workflow, String>>|
            #[trigger] focused_on(
                before,
                after,
                Focus::Field(wheel_target(i, up, before.fields_view().len())),
                loaded,
            ),
    }
}

/// The input the wheel moves to from input `i` of `n`: the previous or the
/// next, without going past the first or last.
pub open spec fn wheel_target(i: usize, up: bool, n: nat) -> usize {
    if up {
        if i > 0 {
            (i - 1) as usize
        } else {
            0
        }
    } else if i + 1 < n {
        (i + 1) as usize
    } else {
        i
    }
}

/// Everything but the destination chooser stays.
pub open spec fn same_but_target(a: InputScreen, b: InputScreen) -> bool {
    &&& b.focus_view() == a.focus_view()
    &&& b.fields_view() == a.fields_view()
    &&& b.page_view() == a.page_view()
    &&& b.workflow_view() == a.workflow_view()
    &&& b.running_view() == a.running_view()
    &&& b.next_id_view() == a.next_id_view()
    &&& b.show_errors_view() == a.show_errors_view()
}

impl InputScreen {
    /// The mouse wheel: it scrolls the destination tree, forgets the
    /// workflow's error, or moves the focus to the previous or next input,
    /// without going past the first or last.
    pub fn scroll<F: Fn(String) -> Result<Workflow, String>>(&mut self, up: bool, load: &F)
        requires
            old(self).wf(),
            forall|path: String| call_requires(*load, (path,)),
        ensures
            final(self).wf(),
            wheeled(*old(self), *final(self), up),
    {
        match self.focus {
            Focus::Target => {
                self.target.scroll(up);
                assert(same_but_target(*old(self), *self));
                assert(wheeled(*old(self), *self, up));

            },
            Focus::Workflow => self.workflow.clear_error(),
            Focus::Field(i) => {
                assert(i < self.fields.len());
                let next = if up {
                    if i > 0 {
                        i - 1
                    } else {
                        0
                    }
                } else if i + 1 < self.fields.len() {
                    i + 1
                } else {
                    i
                };
                assert(next == wheel_target(i, up, self.fields@.len()));
                let ghost before = *self;
                self.focus_on(Focus::Field(next), load);
                proof {
                    let loaded = choose|loaded: Option<Result<Workflow, String>>|
                        #[trigger] focused_on(before, *self, Focus::Field(next), loaded) && loaded_from(*load, loaded, self.workflow_view());
                    assert(focused_on(before, *self, Focus::Field(wheel_target(i, up, before.fields_view().len())), loaded));
                }
            },
        }
    }

    /// Makes in the destination query's editor the edit that `key` makes
    /// in a query line; where the text changes, the tree's query becomes
    /// the editor's text.
    pub fn edit_target_query(&mut self, editor: &mut TextEditor, key: Key, breaks: &HashSet<char>)
        requires
            old(self).wf(),
        ensures
            final(self).wf(),
            match query_edit_for(key) {
                Some(edit) => edit_made(*old(editor), *final(editor), edit, breaks@) && if edits_text(edit) {
                    target_query_set(*old(self), *final(self), editor_text(*final(editor)))
                } else {
                    *final(self) == *old(self)
                },
                None => *final(editor) == *old(editor) && *final(self) == *old(self),
            },
    {
        if let Some(edit) = query_edit(key) {
            apply_edit(editor, edit, breaks);
            if edit.changes_text() {
                self.set_target_query(&text_of(editor));
            }
        }
    }

    /// Makes in the workflow query's editor the edit that `key` makes in a
    /// query line; where the text changes, the list's query becomes the
    /// editor's text.
    pub fn edit_workflow_query(&mut self, editor: &mut TextEditor, key: Key, breaks: &HashSet<char>)
        requires
            old(self).wf(),
        ensures
            final(self).wf(),
            match query_edit_for(key) {
                Some(edit) => edit_made(*old(editor), *final(editor), edit, breaks@) && if edits_text(edit) {
                    workflow_query_set(*old(self), *final(self), editor_text(*final(editor)))
                } else {
                    *final(self) == *old(self)
                },
                None => *final(editor) == *old(editor) && *final(self) == *old(self),
            },
    {
        if let Some(edit) = query_edit(key) {
            apply_edit(editor, edit, breaks);
            if edit.changes_text() {
                self.set_workflow_query(&text_of(editor));
            }
        }
    }

    /// Makes in the editor of input `index` the edit that `key` makes
    /// there: in a multi-line text for a textarea, in a query line for a
    /// select; where the text changes, the input's text or query becomes
    /// the editor's text.
    pub fn edit_field(&mut self, index: usize, editor: &mut TextEditor, key: Key, breaks: &HashSet<char>)
        requires
            old(self).wf(),
            index < old(self).fields_view().len(),
        ensures
            final(self).wf(),
            ({
                let textarea = old(self).fields_view()[index as int].control_view() is Textarea;
                match if textarea { text_edit_for(key) } else { query_edit_for(key) } {
                    Some(edit) => edit_made(*old(editor), *final(editor), edit, breaks@) && if edits_text(edit) {
                        if textarea {
                            field_text_set(*old(self), *final(self), index as int, editor_text(*final(editor)))
                        } else {
                            field_query_set(*old(self), *final(self), index as int, editor_text(*final(editor)))
                        }
                    } else {
                        *final(self) == *old(self)
                    },
                    None => *final(editor) == *old(editor) && *final(self) == *old(self),
                }
            }),
    {
        let textarea = self.fields[index].is_textarea();
        let edit = if textarea {
            text_edit(key)
        } else {
            query_edit(key)
        };
        if let Some(edit) = edit {
            apply_edit(editor, edit, breaks);
            if edit.changes_text() {
                let text = text_of(editor);
                if textarea {
                    self.set_field_text(index, &text);
                } else {
                    self.set_field_query(index, &text);
                }
            }
        }
    }

    /// The destination tree's query is now `query`.
    pub fn set_target_query(&mut self, query: &[char])
        requires
            old(self).wf(),
        ensures
            final(self).wf(),
            target_query_set(*old(self), *final(self), query@),
    {
        self.target.set_query(query);
    }

    /// The workflow list's query is now `query`.
    pub fn set_workflow_query(&mut self, query: &[char])
        requires
            old(self).wf(),
        ensures
            final(self).wf(),
            workflow_query_set(*old(self), *final(self), query@),
    {
        self.workflow.set_query(query);
    }

    /// Input `index`'s select query is now `query`.
    pub fn set_field_query(&mut self, index: usize, query: &[char])
        requires
            old(self).wf(),
            index < old(self).fields_view().len(),
        ensures
            final(self).wf(),
            field_query_set(*old(self), *final(self), index as int, query@),
    {
        let ghost before = self.fields@;
        let mut field = self.fields.remove(index);
        field.set_query(query);
        self.fields.insert(index, field);
        assert(self.fields@ =~= before.update(index as int, field));
    }

    /// Input `index`'s textarea now holds `text`.
    pub fn set_field_text(&mut self, index: usize, text: &[char])
        requires
            old(self).wf(),
            index < old(self).fields_view().len(),
        ensures
            final(self).wf(),
            field_text_set(*old(self), *final(self), index as int, text@),
    {
        let ghost before = self.fields@;
        let mut field = self.fields.remove(index);
        field.set_text(text);
        self.fields.insert(index, field);
        assert(self.fields@ =~= before.update(index as int, field));
    }

    /// A refresh of the panes was requested.
    pub fn refresh_requested(&mut self)
        requires
            old(self).wf(),
        ensures
            final(self).wf(),
            final(self).target_view().state_view() is Loading,
            final(self).target_view().select_view() == old(self).target_view().select_view(),
            final(self).target_view().saved_key() == old(self).target_view().saved_key(),
            final(self).target_view().last_view() == old(self).target_view().last_view(),
            final(self).focus_view() == old(self).focus_view(),
            final(self).workflow_view() == old(self).workflow_view(),
            final(self).fields_view() == old(self).fields_view(),
    {
        self.target.refresh_requested();
    }

    /// Takes in a report of the pane refresh.
    pub fn apply_target_update(&mut self, update: TerminalTargetUpdate)
        requires
            old(self).wf(),
        ensures
            final(self).wf(),
            crate::target::updated(old(self).target_view(), final(self).target_view(), update),
            final(self).page_view() == old(self).page_view(),
            final(self).next_id_view() == old(self).next_id_view(),
            final(self).show_errors_view() == old(self).show_errors_view(),
            final(self).focus_view() == old(self).focus_view(),
            final(self).workflow_view() == old(self).workflow_view(),
            final(self).fields_view() == old(self).fields_view(),
            final(self).running_view() == old(self).running_view(),
    {
        self.target.apply_update(update);
    }

    /// Hands over the destination, the workflow and the saved values.
    pub fn into_submission(self) -> (res: Result<Submission, String>)
        ensures
            match res {
                Ok(s) => {
                    &&& self.target_view().selected_view() == Some(s.target)
                    &&& self.workflow_view().selected_workflow() == Some(s.workflow)
                    &&& s.values@ == self.saved()
                },
                Err(e) => if self.target_view().selected_view() is None {
                    e@ == "terminal target is not selected"@
                } else {
                    self.workflow_view().selected_workflow() is None && e@ == "workflow is not selected"@
                },
            },
    {
        let values = self.saved_values();
        let InputScreen { workflow, target, .. } = self;
        let target = match target.into_selected() {
            Some(t) => t,
            None => return Err(string_from_chars(&chars_of("terminal target is not selected"))),
        };
        let workflow = match workflow.into_selected() {
            Some(w) => w,
            None => return Err(string_from_chars(&chars_of("workflow is not selected"))),
        };
        Ok(Submission { target, workflow, values })
    }
}


/// `after` is `before` with the destination tree's query set to `query`.
pub open spec fn target_query_set(before: InputScreen, after: InputScreen, query: Seq<char>) -> bool {
    &&& tree_changed(before.target_view(), after.target_view())
    &&& after.target_view().select_view().query_view() == query
    &&& after.target_view().select_view().items_view() == before.target_view().select_view().items_view()
    &&& after.focus_view() == before.focus_view()
    &&& after.workflow_view() == before.workflow_view()
    &&& after.fields_view() == before.fields_view()
    &&& after.page_view() == before.page_view()
    &&& after.running_view() == before.running_view()
    &&& after.next_id_view() == before.next_id_view()
    &&& after.show_errors_view() == before.show_errors_view()
}

/// `after` is `before` with the workflow list's query set to `query`.
pub open spec fn workflow_query_set(before: InputScreen, after: InputScreen, query: Seq<char>) -> bool {
    &&& after.workflow_view().select_view().items() == before.workflow_view().select_view().items()
    &&& after.workflow_view().select_view().query() == query
    &&& after.workflow_view().selection_view() == before.workflow_view().selection_view()
    &&& after.workflow_view().selected_workflow() == before.workflow_view().selected_workflow()
    &&& after.workflow_view().error_view() is None
    &&& same_but_workflow(before, after)
}

/// `after` is `before` with the query of input `index`, where it is a
/// select, set to `query` and its first suggestion selected.
pub open spec fn field_query_set(before: InputScreen, after: InputScreen, index: int, query: Seq<char>) -> bool {
    &&& after.fields_view() == before.fields_view().update(index, after.fields_view()[index])
    &&& after.fields_view()[index].value_view() == before.fields_view()[index].value_view()
    &&& after.fields_view()[index].name_view() == before.fields_view()[index].name_view()
    &&& match before.fields_view()[index].control_view() {
        FieldControl::Select(c) => after.fields_view()[index].control_view() matches FieldControl::Select(n)
            && n.select.items() == c.select.items() && n.select.query() == query
            && n.select.selected_position() == crate::select::first_suggestion(c.select.items(), query)
            && n.load_state == c.load_state,
        FieldControl::Textarea(_) => after.fields_view()[index].control_view() == before.fields_view()[index].control_view(),
    }
    &&& after.focus_view() == before.focus_view()
    &&& unchanged_but_focus_and_fields(before, after)
}

/// `after` is `before` with the text of input `index`, where it is a
/// textarea, set to `text`.
pub open spec fn field_text_set(before: InputScreen, after: InputScreen, index: int, text: Seq<char>) -> bool {
    &&& after.fields_view() == before.fields_view().update(index, after.fields_view()[index])
    &&& after.fields_view()[index].value_view() == before.fields_view()[index].value_view()
    &&& after.fields_view()[index].name_view() == before.fields_view()[index].name_view()
    &&& match before.fields_view()[index].control_view() {
        FieldControl::Textarea(_) => after.fields_view()[index].control_view() matches FieldControl::Textarea(t)
            && t@ == text,
        FieldControl::Select(_) => after.fields_view()[index].control_view() == before.fields_view()[index].control_view(),
    }
    &&& after.focus_view() == before.focus_view()
    &&& unchanged_but_focus_and_fields(before, after)
}

} // verus!
