//! Workflow definitions: the checks that a parsed definition must pass, and
//! how a workflow renders its output.
use vstd::prelude::*;

use crate::input::{
    command_calls_partial, definition_calls_partial, string_views, CommandCandidates, InputDefinition, InputKind,
    SelectCandidates, SelectDefinition,
};
use crate::template::{calls_partial, handlebars_render, render, template_calls_partial, Values};
use crate::text::{chars_of, is_blank, is_blank_text, push_all, string_from_chars};

verus! {

// ---------------------------------------------------------------------------
// The definition as it is read from YAML
// ---------------------------------------------------------------------------

/// The kind of an input as written in the definition.
#[derive(Clone, Copy, Debug, PartialEq, Eq, Structural)]
pub enum RawInputKind {
    Select,
    Textarea,
}

/// The candidate sources as written in the definition.
pub struct RawCandidates {
    pub values: Option<Vec<String>>,
    pub command: Option<CommandCandidates>,
}

/// Whether an input that does not say so may stay empty: it may.
pub fn allow_empty_by_default() -> (res: bool)
    ensures
        res,
{
    true
}

/// One input definition as written.
pub struct RawInput {
    pub kind: RawInputKind,
    pub allow_empty: bool,
    pub depends_on: Vec<String>,
    pub candidates: Option<RawCandidates>,
}

/// One entry of the `inputs` mapping: its key, where the key is a string,
/// and its definition, or the text of the error that reading it gave.
pub struct RawInputEntry {
    pub name: Option<String>,
    pub definition: Result<RawInput, String>,
}

/// A workflow definition as written: its name, its input entries in
/// document order, and its output template.
pub struct RawWorkflow {
    pub name: String,
    pub inputs: Vec<RawInputEntry>,
    pub template: String,
}

/// Why a candidate definition is rejected.
#[derive(Clone, Copy, Debug, PartialEq, Eq, Structural)]
pub enum CandidatesError {
    /// `values` is an empty list.
    EmptyValues,
    /// Both `values` and `command` are given.
    BothSources,
    /// Neither `values` nor `command` is given.
    NoSource,
    /// The command's program or an argument may call a partial.
    CommandCallsPartial,
}

/// Why a workflow definition is rejected.
#[derive(Debug, PartialEq, Eq)]
pub enum WorkflowError {
    EmptyName,
    InputNameNotString,
    EmptyInputName,
    DuplicateInput(String),
    InvalidInput { input: String, message: String },
    UnknownDependency { input: String, dependency: String },
    MissingCandidates(String),
    InvalidCandidates { input: String, reason: CandidatesError },
    TextareaCandidates(String),
    TextareaDependencies(String),
    NoInputs,
    EmptyTemplate,
    TemplateCallsPartial,
}

/// The text of a candidate rejection.
pub open spec fn candidates_error_text(e: CandidatesError) -> Seq<char> {
    match e {
        CandidatesError::EmptyValues => "candidate values must not be empty"@,
        CandidatesError::BothSources => "candidates cannot contain both values and command sources"@,
        CandidatesError::NoSource => "candidates require a values or command source"@,
        CandidatesError::CommandCallsPartial => "candidate command templates must not call partials"@,
    }
}

/// The text of a workflow rejection, its context first.
pub open spec fn workflow_error_text(e: WorkflowError) -> Seq<char> {
    match e {
        WorkflowError::EmptyName => "workflow name must not be empty"@,
        WorkflowError::InputNameNotString => "input names must be strings"@,
        WorkflowError::EmptyInputName => "input name must not be empty"@,
        WorkflowError::DuplicateInput(name) => "duplicate input: "@ + name@,
        WorkflowError::InvalidInput { input, message } => message@,
        WorkflowError::UnknownDependency { input, dependency } => "input "@ + input@
            + " depends on unknown or later input "@ + dependency@,
        WorkflowError::MissingCandidates(name) => "select input "@ + name@ + " requires candidates"@,
        WorkflowError::InvalidCandidates { input, reason } => "invalid candidates for select input "@
            + input@ + ": "@ + candidates_error_text(reason),
        WorkflowError::TextareaCandidates(name) => "textarea input "@ + name@
            + " cannot define candidates"@,
        WorkflowError::TextareaDependencies(name) => "textarea input "@ + name@
            + " cannot define depends_on"@,
        WorkflowError::NoInputs => "workflow requires at least one input"@,
        WorkflowError::EmptyTemplate => "output template must not be empty"@,
        WorkflowError::TemplateCallsPartial => "output template must not call partials"@,
    }
}

fn text_with(parts: &[&str]) -> (res: Vec<char>)
    ensures
        res@ == concat_views(parts@),
{
    let mut res: Vec<char> = Vec::new();
    let mut i: usize = 0;
    while i < parts.len()
        invariant
            i <= parts@.len(),
            res@ == concat_views(parts@.take(i as int)),
        decreases parts@.len() - i,
    {
        push_all(&mut res, &chars_of(parts[i]));
        i += 1;
        assert(parts@.take(i as int).drop_last() =~= parts@.take(i - 1));
    }
    assert(parts@.take(i as int) =~= parts@);
    res
}

/// The concatenation of the texts in `parts`.
pub open spec fn concat_views(parts: Seq<&str>) -> Seq<char>
    decreases parts.len(),
{
    if parts.len() == 0 {
        Seq::empty()
    } else {
        concat_views(parts.drop_last()) + parts.last()@
    }
}

impl WorkflowError {
    /// The error as text.
    pub fn message(&self) -> (res: String)
        ensures
            res@ == workflow_error_text(*self),
    {
        let text = match self {
            WorkflowError::EmptyName => text_with(&["workflow name must not be empty"]),
            WorkflowError::InputNameNotString => text_with(&["input names must be strings"]),
            WorkflowError::EmptyInputName => text_with(&["input name must not be empty"]),
            WorkflowError::DuplicateInput(name) => text_with(&["duplicate input: ", name.as_str()]),
            WorkflowError::InvalidInput { input, message } => text_with(&[message.as_str()]),
            WorkflowError::UnknownDependency { input, dependency } => text_with(
                &["input ", input.as_str(), " depends on unknown or later input ", dependency.as_str()],
            ),
            WorkflowError::MissingCandidates(name) => text_with(
                &["select input ", name.as_str(), " requires candidates"],
            ),
            WorkflowError::InvalidCandidates { input, reason } => {
                let detail = match reason {
                    CandidatesError::EmptyValues => "candidate values must not be empty",
                    CandidatesError::BothSources => "candidates cannot contain both values and command sources",
                    CandidatesError::NoSource => "candidates require a values or command source",
                    CandidatesError::CommandCallsPartial => "candidate command templates must not call partials",
                };
                text_with(&["invalid candidates for select input ", input.as_str(), ": ", detail])
            },
            WorkflowError::TextareaCandidates(name) => text_with(
                &["textarea input ", name.as_str(), " cannot define candidates"],
            ),
            WorkflowError::TextareaDependencies(name) => text_with(
                &["textarea input ", name.as_str(), " cannot define depends_on"],
            ),
            WorkflowError::NoInputs => text_with(&["workflow requires at least one input"]),
            WorkflowError::EmptyTemplate => text_with(&["output template must not be empty"]),
            WorkflowError::TemplateCallsPartial => text_with(&["output template must not call partials"]),
        };
        proof {
            reveal_with_fuel(concat_views, 5);
        }
        string_from_chars(&text)
    }
}

// ---------------------------------------------------------------------------
// The checks
// ---------------------------------------------------------------------------

/// The names of entries, an absent name read as empty.
pub open spec fn entry_names(entries: Seq<RawInputEntry>) -> Seq<Seq<char>> {
    entries.map_values(
        |e: RawInputEntry|
            match e.name {
                Some(n) => n@,
                None => Seq::empty(),
            },
    )
}

/// The first dependency from position `k` on that is not among `known`.
pub open spec fn first_unknown(deps: Seq<String>, known: Seq<Seq<char>>, k: int) -> Option<int>
    decreases deps.len() - k,
{
    if k < 0 || k >= deps.len() {
        None
    } else if !known.contains(deps[k]@) {
        Some(k)
    } else {
        first_unknown(deps, known, k + 1)
    }
}

/// Why a candidate definition is rejected, if it is.
pub open spec fn candidates_error(c: RawCandidates) -> Option<CandidatesError> {
    match (c.values, c.command) {
        (Some(values), None) => if values.len() == 0 {
            Some(CandidatesError::EmptyValues)
        } else {
            None
        },
        (None, Some(command)) => if command_calls_partial(command) {
            Some(CandidatesError::CommandCallsPartial)
        } else {
            None
        },
        (Some(_), Some(_)) => Some(CandidatesError::BothSources),
        (None, None) => Some(CandidatesError::NoSource),
    }
}

/// The candidate source that an accepted candidate definition gives.
pub open spec fn candidates_of(c: RawCandidates) -> SelectCandidates {
    match c.values {
        Some(values) => SelectCandidates::Values(values),
        None => SelectCandidates::Command(c.command.unwrap()),
    }
}

/// The check that rejects entry `i`, the entries before it having passed:
/// its key must be a non-blank string not used before; its definition must
/// read; a select must depend only on inputs before it and have valid
/// candidates; a textarea must have neither candidates nor
/// dependencies.
pub open spec fn entry_error(entries: Seq<RawInputEntry>, i: int) -> Option<WorkflowError> {
    let e = entries[i];
    match e.name {
        None => Some(WorkflowError::InputNameNotString),
        Some(name) => if is_blank(name@) {
            Some(WorkflowError::EmptyInputName)
        } else if entry_names(entries.take(i)).contains(name@) {
            Some(WorkflowError::DuplicateInput(name))
        } else {
            match e.definition {
                Err(message) => Some(WorkflowError::InvalidInput { input: name, message }),
                Ok(def) => match def.kind {
                    RawInputKind::Select => match first_unknown(
                        def.depends_on@,
                        entry_names(entries.take(i)),
                        0,
                    ) {
                        Some(k) => Some(
                            WorkflowError::UnknownDependency {
                                input: name,
                                dependency: def.depends_on@[k],
                            },
                        ),
                        None => match def.candidates {
                            None => Some(WorkflowError::MissingCandidates(name)),
                            Some(c) => match candidates_error(c) {
                                Some(reason) => Some(
                                    WorkflowError::InvalidCandidates { input: name, reason },
                                ),
                                None => None,
                            },
                        },
                    },
                    RawInputKind::Textarea => if def.candidates is Some {
                        Some(WorkflowError::TextareaCandidates(name))
                    } else if def.depends_on.len() > 0 {
                        Some(WorkflowError::TextareaDependencies(name))
                    } else {
                        None
                    },
                },
            }
        },
    }
}

/// The input definition that an accepted entry gives.
pub open spec fn definition_of(e: RawInputEntry) -> InputDefinition {
    let def = e.definition->Ok_0;
    InputDefinition {
        name: e.name.unwrap(),
        allow_empty: def.allow_empty,
        kind: match def.kind {
            RawInputKind::Select => InputKind::Select(
                SelectDefinition {
                    depends_on: def.depends_on,
                    candidates: candidates_of(def.candidates.unwrap()),
                },
            ),
            RawInputKind::Textarea => InputKind::Textarea,
        },
    }
}

/// The first rejection among the entries from position `i` on.
pub open spec fn first_entry_error(entries: Seq<RawInputEntry>, i: int) -> Option<WorkflowError>
    decreases entries.len() - i,
{
    if i < 0 || i >= entries.len() {
        None
    } else {
        match entry_error(entries, i) {
            Some(e) => Some(e),
            None => first_entry_error(entries, i + 1),
        }
    }
}

/// The first check that a definition fails, if any: a non-blank name, then
/// each entry in order, then at least one input, then a non-blank output
/// template.
pub open spec fn workflow_error(raw: RawWorkflow) -> Option<WorkflowError> {
    if is_blank(raw.name@) {
        Some(WorkflowError::EmptyName)
    } else {
        match first_entry_error(raw.inputs@, 0) {
            Some(e) => Some(e),
            None => if raw.inputs.len() == 0 {
                Some(WorkflowError::NoInputs)
            } else if is_blank(raw.template@) {
                Some(WorkflowError::EmptyTemplate)
            } else if calls_partial(raw.template@) {
                Some(WorkflowError::TemplateCallsPartial)
            } else {
                None
            },
        }
    }
}

// ---------------------------------------------------------------------------
// Workflows
// ---------------------------------------------------------------------------

/// A checked workflow definition.
pub struct Workflow {
    name: String,
    inputs: Vec<InputDefinition>,
    template: String,
}

/// The names of input definitions.
pub open spec fn definition_names(defs: Seq<InputDefinition>) -> Seq<Seq<char>> {
    defs.map_values(|d: InputDefinition| d.name@)
}

/// What every workflow satisfies: at least one input; input names non-blank
/// and distinct; a select depends only on inputs before it; no candidate
/// command that may call a partial; a non-blank output template that calls
/// none.
pub open spec fn well_formed_workflow(inputs: Seq<InputDefinition>, template: Seq<char>) -> bool {
    &&& inputs.len() > 0
    &&& forall|i: int| 0 <= i < inputs.len() ==> !is_blank(#[trigger] inputs[i].name@)
    &&& forall|i: int, j: int|
        0 <= i < j < inputs.len() ==> #[trigger] inputs[i].name@ != #[trigger] inputs[j].name@
    &&& forall|i: int, k: int|
        0 <= i < inputs.len() && inputs[i].kind is Select && 0 <= k
            < inputs[i].kind->Select_0.depends_on.len() ==> definition_names(inputs.take(i)).contains(
            #[trigger] inputs[i].kind->Select_0.depends_on@[k]@,
        )
    &&& forall|i: int| 0 <= i < inputs.len() ==> !definition_calls_partial(#[trigger] inputs[i])
    &&& !is_blank(template)
    &&& !calls_partial(template)
}

impl Workflow {
    #[verifier::type_invariant]
    spec fn well_formed(self) -> bool {
        well_formed_workflow(self.inputs@, self.template@)
    }

    /// The display name.
    pub closed spec fn workflow_name(self) -> String {
        self.name
    }

    /// The inputs, in definition order.
    pub closed spec fn input_definitions(self) -> Seq<InputDefinition> {
        self.inputs@
    }

    /// The output template.
    pub closed spec fn output_template(self) -> String {
        self.template
    }

    /// The display name.
    pub fn name(&self) -> (res: &str)
        ensures
            res@ == self.workflow_name()@,
    {
        self.name.as_str()
    }

    /// The inputs, in definition order.
    pub fn inputs(&self) -> (res: &[InputDefinition])
        ensures
            res@ == self.input_definitions(),
            well_formed_workflow(self.input_definitions(), self.output_template()@),
    {
        proof {
            use_type_invariant(self);
        }
        self.inputs.as_slice()
    }

    /// Checks a definition as written and builds the workflow from it.
    pub fn from_raw(raw: RawWorkflow) -> (res: Result<Workflow, WorkflowError>)
        ensures
            match res {
                Ok(w) => {
                    &&& workflow_error(raw) is None
                    &&& well_formed_workflow(w.input_definitions(), w.output_template()@)
                    &&& w.workflow_name() == raw.name
                    &&& w.output_template() == raw.template
                    &&& w.input_definitions().len() == raw.inputs@.len()
                    &&& forall|i: int|
                        0 <= i < raw.inputs@.len() ==> w.input_definitions()[i] == definition_of(
                            #[trigger] raw.inputs@[i],
                        )
                },
                Err(e) => workflow_error(raw) == Some(e),
            },
    {
        let ghost raw_copy = raw;
        if is_blank_text(&chars_of(raw.name.as_str())) {
            return Err(WorkflowError::EmptyName);
        }
        let RawWorkflow { name, inputs: entries, template } = raw;
        let ghost ev = entries@;
        let total = entries.len();
        let ghost n = ev.len();
        // Reverse the entries so that popping yields them in document order.
        let mut source = entries;
        let mut pending: Vec<RawInputEntry> = Vec::new();
        while source.len() > 0
            invariant
                source@ == ev.take(source@.len() as int),
                source@.len() <= n,
                n == ev.len(),
                pending@.len() == n - source@.len(),
                forall|k: int| 0 <= k < pending@.len() ==> #[trigger] pending@[k] == ev[n - 1 - k],
            decreases source@.len(),
        {
            let ghost before = source@;
            match source.pop() {
                Some(e) => {
                    assert(source@ =~= ev.take(source@.len() as int));
                    let ghost pb = pending@;
                    pending.push(e);
                    assert(pending@ =~= pb.push(e));
                },
                None => {},
            }
        }
        let mut inputs: Vec<InputDefinition> = Vec::new();
        let mut seen: Vec<String> = Vec::new();
        let mut i: usize = 0;
        while pending.len() > 0
            invariant
                raw_copy == raw,
                raw_copy.inputs@ == ev,
                raw_copy.name == name,
                raw_copy.template == template,
                !is_blank(name@),
                n == ev.len(),
                n == total,
                i <= n,
                pending@.len() == n - i,
                forall|k: int| 0 <= k < pending@.len() ==> #[trigger] pending@[k] == ev[n - 1 - k],
                first_entry_error(ev, 0) == first_entry_error(ev, i as int),
                inputs@.len() == i,
                forall|j: int| 0 <= j < i ==> inputs@[j] == definition_of(#[trigger] ev[j]),
                string_views(seen@) == entry_names(ev.take(i as int)),
                definition_names(inputs@) == string_views(seen@),
                well_formed_prefix(inputs@),
            decreases pending@.len(),
        {
            let entry = match pending.pop() {
                Some(entry) => entry,
                None => return Err(WorkflowError::NoInputs),
            };
            assert(entry == ev[i as int]);
            proof {
                assert(ev.take(i + 1) =~= ev.take(i as int).push(ev[i as int]));
                assert(entry_names(ev.take(i + 1)) =~= entry_names(ev.take(i as int)).push(
                    entry_names(ev)[i as int],
                ));
                lemma_first_entry_error_step(ev, i as int);
            }
            let RawInputEntry { name: entry_name, definition } = entry;
            let input_name = match entry_name {
                None => {
                    return Err(WorkflowError::InputNameNotString);
                },
                Some(input_name) => input_name,
            };
            if is_blank_text(&chars_of(input_name.as_str())) {
                return Err(WorkflowError::EmptyInputName);
            }
            if contains_string(&seen, &input_name) {
                return Err(WorkflowError::DuplicateInput(input_name));
            }
            let def = match definition {
                Err(message) => return Err(WorkflowError::InvalidInput { input: input_name, message }),
                Ok(def) => def,
            };
            let ghost old_seen = string_views(seen@);
            let ghost old_inputs = inputs@;
            let RawInput { kind, allow_empty, depends_on, candidates } = def;
            let input_kind = match kind {
                RawInputKind::Select => {
                    match first_unknown_dependency(&depends_on, &seen) {
                        Some(k) => {
                            return Err(
                                WorkflowError::UnknownDependency {
                                    input: input_name,
                                    dependency: depends_on[k].clone(),
                                },
                            );
                        },
                        None => {},
                    }
                    proof {
                        lemma_first_unknown_none(depends_on@, string_views(seen@), 0);
                        assert(forall|k: int| 0 <= k < depends_on@.len() ==> old_seen.contains(#[trigger] depends_on@[k]@));
                    }
                    let candidates = match candidates {
                        None => return Err(WorkflowError::MissingCandidates(input_name)),
                        Some(c) => c,
                    };
                    let select_candidates = match select_candidates_of(candidates) {
                        Ok(sc) => sc,
                        Err(reason) => return Err(
                            WorkflowError::InvalidCandidates { input: input_name, reason },
                        ),
                    };
                    InputKind::Select(SelectDefinition { depends_on, candidates: select_candidates })
                },
                RawInputKind::Textarea => {
                    if candidates.is_some() {
                        return Err(WorkflowError::TextareaCandidates(input_name));
                    }
                    if depends_on.len() > 0 {
                        return Err(WorkflowError::TextareaDependencies(input_name));
                    }
                    InputKind::Textarea
                },
            };
            seen.push(input_name.clone());
            assert(string_views(seen@) =~= old_seen.push(input_name@));
            let input = InputDefinition { name: input_name, allow_empty, kind: input_kind };
            proof {
                assert(entry_error(ev, i as int) is None);
                assert(input == definition_of(ev[i as int]));
            }
            inputs.push(input);
            proof {
                assert(inputs@ =~= old_inputs.push(input));
                assert forall|j: int| 0 <= j < i implies #[trigger] inputs@.take(j) == old_inputs.take(j) by {
                    assert(inputs@.take(j) =~= old_inputs.take(j));
                }
                assert(inputs@.take(i + 1) =~= inputs@);
                assert(definition_names(inputs@) =~= string_views(seen@));
                assert(!old_seen.contains(input.name@));
                assert forall|j: int| 0 <= j < i implies old_inputs[j].name@ != input.name@ by {
                    assert(definition_names(old_inputs)[j] == old_inputs[j].name@);
                }
                assert forall|a: int, b: int|
                    0 <= a < b < inputs@.len() implies #[trigger] inputs@[a].name@
                    != #[trigger] inputs@[b].name@ by {
                    if b == i {
                        assert(inputs@[a] == old_inputs[a]);
                    } else {
                        assert(inputs@[a] == old_inputs[a]);
                        assert(inputs@[b] == old_inputs[b]);
                    }
                }
                assert forall|a: int, k: int|
                    0 <= a < inputs@.len() && inputs@[a].kind is Select && 0 <= k
                        < inputs@[a].kind->Select_0.depends_on.len() implies definition_names(
                    inputs@.take(a),
                ).contains(#[trigger] inputs@[a].kind->Select_0.depends_on@[k]@) by {
                    if a == i {
                        assert(inputs@[a] == input);
                        assert(inputs@.take(a) =~= old_inputs);
                        assert(old_seen.contains(input.kind->Select_0.depends_on@[k]@));
                    } else {
                        assert(inputs@[a] == old_inputs[a]);
                        assert(inputs@.take(a) == old_inputs.take(a));
                    }
                }
                assert forall|a: int| 0 <= a < inputs@.len() implies !definition_calls_partial(#[trigger] inputs@[a]) by {
                    if a < i {
                        assert(inputs@[a] == old_inputs[a]);
                    }
                }
                assert(well_formed_prefix(inputs@));
            }
            i += 1;
        }
        proof {
            assert(ev.take(ev.len() as int) =~= ev);
        }
        if inputs.len() == 0 {
            return Err(WorkflowError::NoInputs);
        }
        if is_blank_text(&chars_of(template.as_str())) {
            return Err(WorkflowError::EmptyTemplate);
        }
        if template_calls_partial(template.as_str()) {
            return Err(WorkflowError::TemplateCallsPartial);
        }
        Ok(Workflow { name, inputs, template })
    }
}

/// The values that a workflow's template is rendered with: the saved
/// values, and the empty text for each input that allows an empty value and
/// has none saved.
pub open spec fn render_inputs(defs: Seq<InputDefinition>, values: Map<Seq<char>, Seq<char>>) -> Map<
    Seq<char>,
    Seq<char>,
> {
    Map::new(
        |k: Seq<char>|
            values.dom().contains(k) || exists|i: int|
                0 <= i < defs.len() && #[trigger] defs[i].allow_empty && defs[i].name@ == k,
        |k: Seq<char>|
            if values.dom().contains(k) {
                values[k]
            } else {
                Seq::empty()
            },
    )
}

impl Workflow {
    /// Renders the output template with the saved values, an input that
    /// allows an empty value and has none saved rendering as empty text.
    pub fn render(&self, values: &Values) -> (res: Result<String, String>)
        ensures
            match res {
                Ok(output) => handlebars_render(
                    self.output_template()@,
                    render_inputs(self.input_definitions(), values@),
                ) == Ok::<Seq<char>, Seq<char>>(output@),
                Err(message) => exists|error: Seq<char>|
                    handlebars_render(
                        self.output_template()@,
                        render_inputs(self.input_definitions(), values@),
                    ) == Err::<Seq<char>, Seq<char>>(error) && message@
                        == "failed to render Markdown output: "@ + error,
            },
    {
        let mut filled = values.duplicate();
        let ghost defs = self.inputs@;
        let mut i: usize = 0;
        proof {
            assert(filled@ =~= render_inputs(defs.take(0), values@));
        }
        while i < self.inputs.len()
            invariant
                defs == self.inputs@,
                i <= defs.len(),
                filled@ == render_inputs(defs.take(i as int), values@),
            decreases defs.len() - i,
        {
            let input = &self.inputs[i];
            let ghost before = filled@;
            let ghost t = defs.take(i + 1);
            assert(t =~= defs.take(i as int).push(defs[i as int]));
            if input.allow_empty && !filled.contains_key(input.name.as_str()) {
                filled.insert(input.name.clone(), String::new());
                proof {
                    assert forall|k: Seq<char>| #[trigger] filled@.dom().contains(k)
                        == render_inputs(t, values@).dom().contains(k) by {
                        if k == input.name@ {
                            assert(t[i as int].allow_empty && t[i as int].name@ == k);
                        } else if exists|j: int|
                            0 <= j < t.len() && #[trigger] t[j].allow_empty && t[j].name@ == k {
                            let j = choose|j: int|
                                0 <= j < t.len() && #[trigger] t[j].allow_empty && t[j].name@ == k;
                            assert(j < i);
                            assert(defs.take(i as int)[j] == t[j]);
                        }
                    }
                    assert(filled@ =~= render_inputs(t, values@));
                }
            } else {
                proof {
                    assert forall|k: Seq<char>| #[trigger] filled@.dom().contains(k)
                        == render_inputs(t, values@).dom().contains(k) by {
                        if exists|j: int|
                            0 <= j < t.len() && #[trigger] t[j].allow_empty && t[j].name@ == k {
                            let j = choose|j: int|
                                0 <= j < t.len() && #[trigger] t[j].allow_empty && t[j].name@ == k;
                            if j < i {
                                assert(defs.take(i as int)[j] == t[j]);
                            }
                        }
                        if exists|j: int|
                            0 <= j < defs.take(i as int).len() && #[trigger] defs.take(
                                i as int,
                            )[j].allow_empty && defs.take(i as int)[j].name@ == k {
                            let j = choose|j: int|
                                0 <= j < defs.take(i as int).len() && #[trigger] defs.take(
                                    i as int,
                                )[j].allow_empty && defs.take(i as int)[j].name@ == k;
                            assert(t[j] == defs.take(i as int)[j]);
                        }
                    }
                    assert(filled@ =~= render_inputs(t, values@));
                }
            }
            i += 1;
        }
        assert(defs.take(i as int) =~= defs);
        proof {
            use_type_invariant(self);
        }
        match render(self.template.as_str(), &filled) {
            Ok(output) => Ok(output),
            Err(error) => {
                let mut text = chars_of("failed to render Markdown output: ");
                push_all(&mut text, &chars_of(error.as_str()));
                let message = string_from_chars(&text);
                assert(message@ == "failed to render Markdown output: "@ + error@);
                Err(message)
            },
        }
    }
}

/// Whether `list` holds a string equal to `s`.
fn contains_string(list: &Vec<String>, s: &String) -> (res: bool)
    ensures
        res == string_views(list@).contains(s@),
{
    let mut i: usize = 0;
    while i < list.len()
        invariant
            i <= list@.len(),
            forall|j: int| 0 <= j < i ==> list@[j]@ != s@,
        decreases list@.len() - i,
    {
        if list[i] == *s {
            assert(string_views(list@)[i as int] == s@);
            return true;
        }
        i += 1;
    }
    assert forall|j: int| 0 <= j < string_views(list@).len() implies string_views(list@)[j] != s@ by {
        assert(string_views(list@)[j] == list@[j]@);
    }
    false
}

/// The position of the first dependency that is not among `known`.
fn first_unknown_dependency(deps: &Vec<String>, known: &Vec<String>) -> (res: Option<usize>)
    ensures
        match res {
            Some(k) => k < deps@.len() && first_unknown(deps@, string_views(known@), 0) == Some(k as int),
            None => first_unknown(deps@, string_views(known@), 0) is None,
        },
{
    let mut k: usize = 0;
    while k < deps.len()
        invariant
            k <= deps@.len(),
            first_unknown(deps@, string_views(known@), 0) == first_unknown(
                deps@,
                string_views(known@),
                k as int,
            ),
        decreases deps@.len() - k,
    {
        if !contains_string(known, &deps[k]) {
            return Some(k);
        }
        k += 1;
    }
    None
}

/// The candidate source of a candidate definition, or why it is rejected.
fn select_candidates_of(c: RawCandidates) -> (res: Result<SelectCandidates, CandidatesError>)
    ensures
        match res {
            Ok(sc) => candidates_error(c) is None && sc == candidates_of(c),
            Err(reason) => candidates_error(c) == Some(reason),
        },
{
    let RawCandidates { values, command } = c;
    match (values, command) {
        (Some(values), None) => {
            if values.len() == 0 {
                Err(CandidatesError::EmptyValues)
            } else {
                Ok(SelectCandidates::Values(values))
            }
        },
        (None, Some(command)) => if command.calls_partial() {
            Err(CandidatesError::CommandCallsPartial)
        } else {
            Ok(SelectCandidates::Command(command))
        },
        (Some(_), Some(_)) => Err(CandidatesError::BothSources),
        (None, None) => Err(CandidatesError::NoSource),
    }
}

proof fn lemma_first_entry_error_step(entries: Seq<RawInputEntry>, i: int)
    requires
        0 <= i < entries.len(),
    ensures
        first_entry_error(entries, i) == match entry_error(entries, i) {
            Some(e) => Some(e),
            None => first_entry_error(entries, i + 1),
        },
{
}

proof fn lemma_first_unknown_none(deps: Seq<String>, known: Seq<Seq<char>>, k: int)
    requires
        0 <= k,
        first_unknown(deps, known, k) is None,
    ensures
        forall|j: int| k <= j < deps.len() ==> known.contains(#[trigger] deps[j]@),
    decreases deps.len() - k,
{
    if k < deps.len() {
        lemma_first_unknown_none(deps, known, k + 1);
    }
}

pub open spec fn well_formed_prefix(inputs: Seq<InputDefinition>) -> bool {
    &&& forall|i: int| 0 <= i < inputs.len() ==> !is_blank(#[trigger] inputs[i].name@)
    &&& forall|i: int, j: int|
        0 <= i < j < inputs.len() ==> #[trigger] inputs[i].name@ != #[trigger] inputs[j].name@
    &&& forall|i: int, k: int|
        0 <= i < inputs.len() && inputs[i].kind is Select && 0 <= k
            < inputs[i].kind->Select_0.depends_on.len() ==> definition_names(inputs.take(i)).contains(
            #[trigger] inputs[i].kind->Select_0.depends_on@[k]@,
        )
    &&& forall|i: int| 0 <= i < inputs.len() ==> !definition_calls_partial(#[trigger] inputs[i])
}

} // verus!
