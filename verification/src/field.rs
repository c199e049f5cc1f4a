//! One input of the form: its saved value, and the control that edits it,
//! a select whose candidates may come from a command, or a textarea.
use vstd::prelude::*;

use crate::input::{
    command_calls_partial, command_renders, render_error_text, string_views, CommandCandidates, CommandRenderError,
    InputDefinition, InputKind, SelectCandidates,
};
use crate::select::{first_suggestion, select_navigated, NavigationDirection, Select, SelectItem};
use crate::template::Values;
use crate::text::{chars_of, is_blank, is_blank_text, push_all, string_from_chars};

verus! {

/// Whether a select's candidates are there to choose from.
pub enum LoadState {
    /// The candidates are there.
    Ready,
    /// The candidate command has not run for the current values.
    Unloaded,
    /// The candidate command runs.
    Loading,
    /// The candidate command failed with this message.
    Failed(String),
}

/// A select input and where its candidates come from.
pub struct SelectControl {
    pub depends_on: Vec<String>,
    pub select: Select<String>,
    pub command: Option<CommandCandidates>,
    pub load_state: LoadState,
}

/// The control that edits an input.
pub enum FieldControl {
    Select(SelectControl),
    /// A textarea and the text it holds.
    Textarea(Vec<char>),
}

/// What saving changed.
pub struct SaveOutcome {
    /// A value that was saved before was replaced or cleared.
    pub changed: bool,
}

/// `name` with underscores shown as spaces.
pub open spec fn title_of(name: Seq<char>) -> Seq<char> {
    name.map_values(|c: char| if c == '_' {
        ' '
    } else {
        c
    })
}

/// What a select would save: the selected candidate, or the query where
/// it matches no candidate.
pub open spec fn select_value(s: Select<String>) -> Option<Seq<char>> {
    match s.selected_item() {
        Some(item) => Some(item.value@),
        None => if s.suggestions().len() == 0 && s.query().len() > 0 {
            Some(s.query())
        } else {
            None
        },
    }
}

/// The names in `deps` that have no value in `saved`, in order.
pub open spec fn missing(deps: Seq<Seq<char>>, saved: Set<Seq<char>>) -> Seq<Seq<char>>
    decreases deps.len(),
{
    if deps.len() == 0 {
        Seq::empty()
    } else {
        let rest = missing(deps.drop_last(), saved);
        if saved.contains(deps.last()) {
            rest
        } else {
            rest.push(deps.last())
        }
    }
}

/// The select items of a fixed list: each value is its own key and label.
pub open spec fn items_of_values(items: Seq<SelectItem<String>>, values: Seq<String>) -> bool {
    &&& items.len() == values.len()
    &&& forall|k: int|
        0 <= k < items.len() ==> {
            &&& (#[trigger] items[k]).key@ == values[k]@
            &&& items[k].label@ == values[k]@
            &&& items[k].value@ == values[k]@
        }
}

/// `f` is the input that `d` describes, with nothing saved: a fixed list
/// of candidates is there at once, a command's waits to run.
pub open spec fn defines(f: InputField, d: InputDefinition) -> bool {
    &&& f.name_view() == d.name@
    &&& f.title_view() == title_of(d.name@)
    &&& f.allow_empty_view() == d.allow_empty
    &&& f.value_view() is None
    &&& match (d.kind, f.control_view()) {
        (InputKind::Select(s), FieldControl::Select(c)) => {
            &&& string_views(c.depends_on@) == string_views(s.depends_on@)
            &&& c.select.query().len() == 0
            &&& c.select.selected_position() == first_suggestion(c.select.items(), c.select.query())
            &&& match s.candidates {
                SelectCandidates::Values(values) => {
                    &&& items_of_values(c.select.items(), values@)
                    &&& c.command is None
                    &&& c.load_state is Ready
                },
                SelectCandidates::Command(command) => {
                    &&& c.select.items().len() == 0
                    &&& c.command matches Some(cc) && cc.program@ == command.program@ && string_views(
                        cc.args@,
                    ) == string_views(command.args@)
                    &&& c.load_state is Unloaded
                },
            }
        },
        (InputKind::Textarea, FieldControl::Textarea(text)) => text@.len() == 0,
        _ => false,
    }
}

/// `after` is `before` with its saved value forgotten and, where its
/// candidates come from a command, those dropped to load again.
pub open spec fn cleared(before: InputField, after: InputField) -> bool {
    &&& after.value_view() is None
    &&& after.name_view() == before.name_view()
    &&& after.title_view() == before.title_view()
    &&& after.allow_empty_view() == before.allow_empty_view()
    &&& match before.control_view() {
        FieldControl::Select(c) => if c.command is Some {
            &&& after.control_view() matches FieldControl::Select(n)
            &&& n.load_state is Unloaded
            &&& n.select.items().len() == 0
            &&& n.select.query() == c.select.query()
            &&& string_views(n.depends_on@) == string_views(c.depends_on@)
            &&& n.command == c.command
        } else {
            after.control_view() == before.control_view()
        },
        FieldControl::Textarea(_) => after.control_view() == before.control_view(),
    }
}

/// What saving keeps: the draft, or nothing where it is blank.
pub open spec fn saved_value(draft: Seq<char>) -> Option<Seq<char>> {
    if is_blank(draft) {
        None
    } else {
        Some(draft)
    }
}

/// `after` is `before` with its select's selection moved in `direction`,
/// where it can; a textarea moves between its lines itself, as
/// `textarea_moved` tells. `res` says whether anything moved.
pub open spec fn field_navigated(
    before: InputField,
    after: InputField,
    direction: NavigationDirection,
    textarea_moved: bool,
    res: bool,
) -> bool {
    &&& after.value_view() == before.value_view()
    &&& after.name_view() == before.name_view()
    &&& after.title_view() == before.title_view()
    &&& after.allow_empty_view() == before.allow_empty_view()
    &&& match before.control_view() {
        FieldControl::Select(c) => {
            &&& after.control_view() matches FieldControl::Select(n)
            &&& select_navigated(c.select, n.select, direction)
            &&& n.load_state == c.load_state
            &&& n.command == c.command
            &&& n.depends_on == c.depends_on
            &&& res == (n.select.selected_position() != c.select.selected_position())
        },
        FieldControl::Textarea(_) => res == textarea_moved && after.control_view() == before.control_view(),
    }
}

/// `after` is `before` with a failed candidate command allowed to run
/// again.
pub open spec fn retried(before: InputField, after: InputField) -> bool {
    &&& after.value_view() == before.value_view()
    &&& after.name_view() == before.name_view()
    &&& after.title_view() == before.title_view()
    &&& after.allow_empty_view() == before.allow_empty_view()
    &&& match before.control_view() {
        FieldControl::Select(c) => {
            &&& after.control_view() matches FieldControl::Select(n)
            &&& n.select == c.select
            &&& n.command == c.command
            &&& n.depends_on == c.depends_on
            &&& n.load_state == if c.load_state is Failed {
                LoadState::Unloaded
            } else {
                c.load_state
            }
        },
        FieldControl::Textarea(_) => after.control_view() == before.control_view(),
    }
}

/// `after` is `before` with its select's candidate at `row` selected,
/// where there is one; `res` says whether there was.
pub open spec fn field_picked(before: InputField, after: InputField, row: usize, res: bool) -> bool {
    &&& after.value_view() == before.value_view()
    &&& after.name_view() == before.name_view()
    &&& after.title_view() == before.title_view()
    &&& after.allow_empty_view() == before.allow_empty_view()
    &&& match before.control_view() {
        FieldControl::Select(c) => {
            &&& after.control_view() matches FieldControl::Select(n)
            &&& n.select.items() == c.select.items()
            &&& n.select.query() == c.select.query()
            &&& n.load_state == c.load_state
            &&& n.command == c.command
            &&& n.depends_on == c.depends_on
            &&& res == (row < c.select.suggestions().len())
            &&& n.select.selected_position() == if res {
                Some(row)
            } else {
                c.select.selected_position()
            }
        },
        FieldControl::Textarea(_) => !res && after.control_view() == before.control_view(),
    }
}

/// `after` is `before` after its candidate command is prepared with the
/// saved `values`: `res` holds the program and arguments to run, after
/// which the candidates count as loading; nothing where there is no
/// command; or the error, with the input's name, where a template fails.
pub open spec fn prepared(
    before: InputField,
    after: InputField,
    values: Map<Seq<char>, Seq<char>>,
    res: Result<Option<(String, Vec<String>)>, String>,
) -> bool {
    &&& after.value_view() == before.value_view()
    &&& after.name_view() == before.name_view()
    &&& after.title_view() == before.title_view()
    &&& after.allow_empty_view() == before.allow_empty_view()
    &&& match before.control_view() {
        FieldControl::Select(c) => match c.command {
            Some(cc) => if command_calls_partial(cc) {
                &&& res matches Err(m) && m@ == "failed to prepare candidates for "@ + before.name_view()
                    + ": candidate command templates must not call partials"@
                &&& after.control_view() == before.control_view()
            } else {
                match res {
                Ok(Some((program, args))) => {
                    &&& command_renders(cc, values, Ok((program, args)))
                    &&& after.control_view() matches FieldControl::Select(n)
                    &&& n.load_state is Loading
                    &&& n.select == c.select
                    &&& n.command == c.command
                    &&& n.depends_on == c.depends_on
                },
                Err(m) => {
                    &&& exists|e: CommandRenderError|
                        command_renders(cc, values, Err(e)) && m@ == "failed to prepare candidates for "@
                            + before.name_view() + ": "@ + #[trigger] render_error_text(e)
                    &&& after.control_view() == before.control_view()
                },
                Ok(None) => false,
                }
            },
            None => res matches Ok(None) && after.control_view() == before.control_view(),
        },
        FieldControl::Textarea(_) => res matches Ok(None) && after.control_view() == before.control_view(),
    }
}

/// `after` is `before` after its candidate command gave `result`: the
/// candidates, or why it failed; no candidates count as a failure.
pub open spec fn loaded_with(before: InputField, after: InputField, result: Result<Vec<String>, String>) -> bool {
    &&& after.value_view() == before.value_view()
    &&& after.name_view() == before.name_view()
    &&& after.title_view() == before.title_view()
    &&& after.allow_empty_view() == before.allow_empty_view()
    &&& match before.control_view() {
        FieldControl::Select(c) => {
            &&& after.control_view() matches FieldControl::Select(n)
            &&& n.command == c.command
            &&& n.depends_on == c.depends_on
            &&& match result {
                Ok(values) => if values.len() == 0 {
                    &&& n.load_state matches LoadState::Failed(m)
                    &&& m@ == "Task returned no candidates"@
                    &&& n.select == c.select
                } else {
                    &&& n.load_state is Ready
                    &&& items_of_values(n.select.items(), values@)
                    &&& n.select.query() == c.select.query()
                },
                Err(e) => n.load_state == LoadState::Failed(e) && n.select == c.select,
            }
        },
        FieldControl::Textarea(_) => after.control_view() == before.control_view(),
    }
}

/// One input of the form.
pub struct InputField {
    name: String,
    title: String,
    allow_empty: bool,
    value: Option<String>,
    control: FieldControl,
}

fn select_items(values: &Vec<String>) -> (res: Vec<SelectItem<String>>)
    ensures
        items_of_values(res@, values@),
{
    let mut items: Vec<SelectItem<String>> = Vec::new();
    let mut k: usize = 0;
    while k < values.len()
        invariant
            k <= values.len(),
            items@.len() == k,
            forall|j: int|
                0 <= j < k ==> {
                    &&& (#[trigger] items@[j]).key@ == values@[j]@
                    &&& items@[j].label@ == values@[j]@
                    &&& items@[j].value@ == values@[j]@
                },
        decreases values.len() - k,
    {
        let v = &values[k];
        items.push(SelectItem::new(v.clone(), v.clone(), v.clone()));
        k += 1;
    }
    items
}

fn copy_strings(v: &Vec<String>) -> (res: Vec<String>)
    ensures
        string_views(res@) == string_views(v@),
{
    let mut res: Vec<String> = Vec::new();
    let mut k: usize = 0;
    while k < v.len()
        invariant
            k <= v.len(),
            string_views(res@) == string_views(v@.take(k as int)),
        decreases v.len() - k,
    {
        let ghost before = res@;
        let item = v[k].clone();
        res.push(item);
        assert(string_views(res@) =~= string_views(before).push(v@[k as int]@));
        k += 1;
        assert(string_views(res@) =~= string_views(v@.take(k as int)));
    }
    assert(v@.take(v.len() as int) =~= v@);
    res
}

fn copy_command(c: &CommandCandidates) -> (res: CommandCandidates)
    ensures
        res.program@ == c.program@,
        string_views(res.args@) == string_views(c.args@),
{
    CommandCandidates { program: c.program.clone(), args: copy_strings(&c.args) }
}

impl InputField {
    pub closed spec fn name_view(self) -> Seq<char> {
        self.name@
    }

    pub closed spec fn title_view(self) -> Seq<char> {
        self.title@
    }

    pub closed spec fn allow_empty_view(self) -> bool {
        self.allow_empty
    }

    /// The saved value.
    pub closed spec fn value_view(self) -> Option<Seq<char>> {
        match self.value {
            Some(v) => Some(v@),
            None => None,
        }
    }

    /// The control.
    pub closed spec fn control_view(self) -> FieldControl {
        self.control
    }

    /// What saving would keep: nothing while candidates load, else the
    /// select's value or the empty text, or the textarea's text.
    pub open spec fn draft_view(self) -> Option<Seq<char>> {
        match self.control_view() {
            FieldControl::Select(c) => if c.load_state is Loading {
                None
            } else {
                match select_value(c.select) {
                    Some(v) => Some(v),
                    None => Some(Seq::empty()),
                }
            },
            FieldControl::Textarea(text) => Some(text@),
        }
    }

    /// The names the select waits for.
    pub open spec fn dependencies(self) -> Seq<Seq<char>> {
        match self.control_view() {
            FieldControl::Select(c) => string_views(c.depends_on@),
            FieldControl::Textarea(_) => Seq::empty(),
        }
    }

    pub open spec fn load_state_view(self) -> Option<LoadState> {
        match self.control_view() {
            FieldControl::Select(c) => Some(c.load_state),
            FieldControl::Textarea(_) => None,
        }
    }

    /// The input that `definition` describes, with nothing saved; a fixed
    /// list of candidates is there at once, a command's waits to run.
    pub fn from_definition(definition: &InputDefinition) -> (res: InputField)
        ensures
            defines(res, *definition),
    {
        let control = match &definition.kind {
            InputKind::Select(d) => {
                let mut select: Select<String> = Select::new();
                let (command, load_state) = match &d.candidates {
                    SelectCandidates::Values(values) => {
                        select.replace_items(select_items(values));
                        (None, LoadState::Ready)
                    },
                    SelectCandidates::Command(command) => (Some(copy_command(command)), LoadState::Unloaded),
                };
                FieldControl::Select(
                    SelectControl { depends_on: copy_strings(&d.depends_on), select, command, load_state },
                )
            },
            InputKind::Textarea => FieldControl::Textarea(Vec::new()),
        };
        let mut title: Vec<char> = Vec::new();
        let name = chars_of(definition.name.as_str());
        let mut k: usize = 0;
        while k < name.len()
            invariant
                k <= name.len(),
                name@ == definition.name@,
                title@ == title_of(name@.take(k as int)),
            decreases name.len() - k,
        {
            if name[k] == '_' {
                title.push(' ');
            } else {
                title.push(name[k]);
            }
            k += 1;
            assert(title@ =~= title_of(name@.take(k as int)));
        }
        assert(name@.take(name.len() as int) =~= name@);
        InputField {
            name: definition.name.clone(),
            title: string_from_chars(&title),
            allow_empty: definition.allow_empty,
            value: None,
            control,
        }
    }
}


impl InputField {
    pub fn name(&self) -> (res: &str)
        ensures
            res@ == self.name_view(),
    {
        self.name.as_str()
    }

    /// The name as shown: underscores as spaces.
    pub fn title(&self) -> (res: &str)
        ensures
            res@ == self.title_view(),
    {
        self.title.as_str()
    }

    pub fn allow_empty(&self) -> (res: bool)
        ensures
            res == self.allow_empty_view(),
    {
        self.allow_empty
    }

    pub fn is_required(&self) -> (res: bool)
        ensures
            res == !self.allow_empty_view(),
    {
        !self.allow_empty
    }

    /// The saved value.
    pub fn value(&self) -> (res: Option<&str>)
        ensures
            match res {
                Some(v) => self.value_view() == Some(v@),
                None => self.value_view() is None,
            },
    {
        match &self.value {
            Some(v) => Some(v.as_str()),
            None => None,
        }
    }

    pub fn is_textarea(&self) -> (res: bool)
        ensures
            res == self.control_view() is Textarea,
    {
        match &self.control {
            FieldControl::Textarea(_) => true,
            FieldControl::Select(_) => false,
        }
    }

    /// The control, to show it.
    pub fn control(&self) -> (res: &FieldControl)
        ensures
            *res == self.control_view(),
    {
        &self.control
    }

    /// Whether the select waits for the input named `name`.
    pub fn depends_on(&self, name: &str) -> (res: bool)
        ensures
            res == self.dependencies().contains(name@),
    {
        let deps = match &self.control {
            FieldControl::Select(c) => &c.depends_on,
            FieldControl::Textarea(_) => {
                assert(self.dependencies() =~= Seq::<Seq<char>>::empty());
                return false;
            },
        };
        let mut k: usize = 0;
        while k < deps.len()
            invariant
                k <= deps.len(),
                string_views(deps@) == self.dependencies(),
                forall|j: int| 0 <= j < k ==> deps@[j]@ != name@,
            decreases deps.len() - k,
        {
            if crate::text::chars_eq(&chars_of(deps[k].as_str()), &chars_of(name)) {
                assert(self.dependencies()[k as int] == name@);
                return true;
            }
            k += 1;
        }
        assert forall|j: int| 0 <= j < self.dependencies().len() implies self.dependencies()[j] != name@ by {
            assert(self.dependencies()[j] == deps@[j]@);
        }
        false
    }

    /// The inputs the select waits for that have no saved value, in order.
    pub fn missing_dependencies(&self, values: &Values) -> (res: Vec<String>)
        ensures
            string_views(res@) == missing(self.dependencies(), values@.dom()),
    {
        let deps = match &self.control {
            FieldControl::Select(c) => &c.depends_on,
            FieldControl::Textarea(_) => {
                assert(self.dependencies() =~= Seq::<Seq<char>>::empty());
                return Vec::new();
            },
        };
        let mut res: Vec<String> = Vec::new();
        let mut k: usize = 0;
        while k < deps.len()
            invariant
                k <= deps.len(),
                string_views(deps@) == self.dependencies(),
                string_views(res@) == missing(string_views(deps@).take(k as int), values@.dom()),
            decreases deps.len() - k,
        {
            let ghost before = res@;
            assert(string_views(deps@).take(k + 1).drop_last() =~= string_views(deps@).take(k as int));
            if !values.contains_key(deps[k].as_str()) {
                res.push(deps[k].clone());
                assert(string_views(res@) =~= string_views(before).push(deps@[k as int]@));
            }
            k += 1;
        }
        assert(string_views(deps@).take(deps.len() as int) =~= string_views(deps@));
        res
    }

    /// What saving would keep.
    pub fn draft(&self) -> (res: Option<String>)
        ensures
            match res {
                Some(d) => self.draft_view() == Some(d@),
                None => self.draft_view() is None,
            },
    {
        match &self.control {
            FieldControl::Select(c) => {
                if let LoadState::Loading = c.load_state {
                    return None;
                }
                match c.select.value() {
                    Some(v) => Some(v),
                    None => Some(String::new()),
                }
            },
            FieldControl::Textarea(text) => Some(string_from_chars(text)),
        }
    }

    /// The query typed into a select where it matches no candidate.
    pub fn custom_value(&self) -> (res: Option<String>)
        ensures
            match self.control_view() {
                FieldControl::Select(c) => match res {
                    Some(q) => c.select.suggestions().len() == 0 && c.select.query().len() > 0 && q@
                        == c.select.query(),
                    None => c.select.suggestions().len() > 0 || c.select.query().len() == 0,
                },
                FieldControl::Textarea(_) => res is None,
            },
    {
        match &self.control {
            FieldControl::Select(c) => c.select.custom_query(),
            FieldControl::Textarea(_) => None,
        }
    }

    /// Saves the draft, or nothing where it is blank; says whether a value
    /// saved before changed. Nothing happens while candidates load.
    pub fn save(&mut self) -> (res: Option<SaveOutcome>)
        ensures
            final(self).control_view() == old(self).control_view(),
            final(self).name_view() == old(self).name_view(),
            final(self).title_view() == old(self).title_view(),
            final(self).allow_empty_view() == old(self).allow_empty_view(),
            match old(self).draft_view() {
                None => res is None && *final(self) == *old(self),
                Some(d) => {
                    &&& final(self).value_view() == saved_value(d)
                    &&& res matches Some(outcome) && outcome.changed == (old(self).value_view() is Some
                        && old(self).value_view() != saved_value(d))
                },
            },
    {
        let draft = match self.draft() {
            Some(d) => d,
            None => return None,
        };
        let next = if is_blank_text(&chars_of(draft.as_str())) {
            None
        } else {
            Some(draft)
        };
        let changed = match (&self.value, &next) {
            (Some(v), Some(n)) => !crate::text::chars_eq(&chars_of(v.as_str()), &chars_of(n.as_str())),
            (Some(_), None) => true,
            (None, _) => false,
        };
        self.value = next;
        Some(SaveOutcome { changed })
    }

    /// Forgets the saved value; a command's candidates are dropped so that
    /// they load again.
    pub fn invalidate(&mut self)
        ensures
            cleared(*old(self), *final(self)),
    {
        self.value = None;
        if let FieldControl::Select(c) = &mut self.control {
            if c.command.is_some() {
                c.select.replace_items(Vec::new());
                c.load_state = LoadState::Unloaded;
            }
        }
    }

    /// The textarea's text is now `text`.
    pub fn set_text(&mut self, text: &[char])
        ensures
            final(self).value_view() == old(self).value_view(),
            final(self).name_view() == old(self).name_view(),
            final(self).title_view() == old(self).title_view(),
            final(self).allow_empty_view() == old(self).allow_empty_view(),
            match old(self).control_view() {
                FieldControl::Textarea(_) => final(self).control_view() matches FieldControl::Textarea(t)
                    && t@ == text@,
                FieldControl::Select(_) => final(self).control_view() == old(self).control_view(),
            },
    {
        if let FieldControl::Textarea(t) = &mut self.control {
            let mut copy: Vec<char> = Vec::new();
            push_all(&mut copy, text);
            *t = copy;
        }
    }

    /// The select's query is now `query`.
    pub fn set_query(&mut self, query: &[char])
        ensures
            final(self).value_view() == old(self).value_view(),
            final(self).name_view() == old(self).name_view(),
            final(self).title_view() == old(self).title_view(),
            final(self).allow_empty_view() == old(self).allow_empty_view(),
            match old(self).control_view() {
                FieldControl::Select(c) => final(self).control_view() matches FieldControl::Select(n)
                    && n.select.items() == c.select.items() && n.select.query() == query@
                    && n.select.selected_position() == first_suggestion(c.select.items(), query@)
                    && n.load_state == c.load_state && n.command == c.command && n.depends_on
                    == c.depends_on,
                FieldControl::Textarea(_) => final(self).control_view() == old(self).control_view(),
            },
    {
        if let FieldControl::Select(c) = &mut self.control {
            c.select.set_query(query);
        }
    }

    /// Moves a select's selection; a textarea moves between its lines
    /// itself, and `textarea_moved` says whether it did.
    pub fn navigate(&mut self, direction: NavigationDirection, textarea_moved: bool) -> (res: bool)
        ensures
            field_navigated(*old(self), *final(self), direction, textarea_moved, res),
    {
        match &mut self.control {
            FieldControl::Select(c) => c.select.navigate(direction),
            FieldControl::Textarea(_) => textarea_moved,
        }
    }

    /// Selects the select's candidate at `row`, where there is one.
    pub fn select_at(&mut self, row: usize) -> (res: bool)
        ensures
            field_picked(*old(self), *final(self), row, res),
    {
        match &mut self.control {
            FieldControl::Select(c) => c.select.select_at(row),
            FieldControl::Textarea(_) => false,
        }
    }

    /// The select's candidate command has yet to run.
    pub fn needs_load(&self) -> (res: bool)
        ensures
            res == (self.load_state_view() matches Some(LoadState::Unloaded)),
    {
        match &self.control {
            FieldControl::Select(c) => match c.load_state {
                LoadState::Unloaded => true,
                _ => false,
            },
            FieldControl::Textarea(_) => false,
        }
    }

    /// The select's candidate command runs.
    pub fn is_loading(&self) -> (res: bool)
        ensures
            res == (self.load_state_view() matches Some(LoadState::Loading)),
    {
        match &self.control {
            FieldControl::Select(c) => match c.load_state {
                LoadState::Loading => true,
                _ => false,
            },
            FieldControl::Textarea(_) => false,
        }
    }

    /// After a failure, lets the candidate command run again.
    pub fn retry(&mut self)
        ensures
            retried(*old(self), *final(self)),
    {
        if let FieldControl::Select(c) = &mut self.control {
            if let LoadState::Failed(_) = &c.load_state {
                c.load_state = LoadState::Unloaded;
            }
        }
    }

    /// `Loading <title>…` while the candidates load.
    pub fn loading_message(&self) -> (res: Option<String>)
        ensures
            match res {
                Some(m) => self.load_state_view() matches Some(LoadState::Loading) && m@ == "Loading "@
                    + self.title_view() + "…"@,
                None => !(self.load_state_view() matches Some(LoadState::Loading)),
            },
    {
        if !self.is_loading() {
            return None;
        }
        let mut text = chars_of("Loading ");
        push_all(&mut text, &chars_of(self.title.as_str()));
        push_all(&mut text, &chars_of("…"));
        Some(string_from_chars(&text))
    }

    /// Why the candidates failed to load.
    pub fn error_message(&self) -> (res: Option<&str>)
        ensures
            match res {
                Some(m) => self.load_state_view() matches Some(LoadState::Failed(e)) && e@ == m@,
                None => !(self.load_state_view() matches Some(LoadState::Failed(_))),
            },
    {
        match &self.control {
            FieldControl::Select(c) => match &c.load_state {
                LoadState::Failed(e) => Some(e.as_str()),
                _ => None,
            },
            FieldControl::Textarea(_) => None,
        }
    }
}


impl InputField {
    /// Prepares the select's candidate command with the saved values: the
    /// program and arguments to run, after which the candidates count as
    /// loading; nothing where there is no command; the error, with the
    /// input's name, where a template fails.
    pub fn command_task(&mut self, values: &Values) -> (res: Result<Option<(String, Vec<String>)>, String>)
        ensures
            prepared(*old(self), *final(self), values@, res),
    {
        let name = self.name.clone();
        match &mut self.control {
            FieldControl::Textarea(_) => Ok(None),
            FieldControl::Select(c) => {
                let rendered = match &c.command {
                    None => return Ok(None),
                    Some(cc) => {
                        if cc.calls_partial() {
                            let mut text = chars_of("failed to prepare candidates for ");
                            push_all(&mut text, &chars_of(name.as_str()));
                            push_all(&mut text, &chars_of(": candidate command templates must not call partials"));
                            return Err(string_from_chars(&text));
                        }
                        cc.render(values)
                    },
                };
                match rendered {
                    Ok((program, args)) => {
                        c.load_state = LoadState::Loading;
                        Ok(Some((program, args)))
                    },
                    Err(e) => {
                        let mut text = chars_of("failed to prepare candidates for ");
                        push_all(&mut text, &chars_of(name.as_str()));
                        push_all(&mut text, &chars_of(": "));
                        push_all(&mut text, &chars_of(e.message().as_str()));
                        assert(text@ =~= "failed to prepare candidates for "@ + name@ + ": "@ + render_error_text(e));
                        Err(string_from_chars(&text))
                    },
                }
            },
        }
    }

    /// Takes in what the candidate command gave: its candidates, or why it
    /// failed. No candidates count as a failure.
    pub fn finish_load(&mut self, result: Result<Vec<String>, String>)
        ensures
            loaded_with(*old(self), *final(self), result),
    {
        if let FieldControl::Select(c) = &mut self.control {
            match result {
                Ok(values) => {
                    if values.len() == 0 {
                        c.load_state = LoadState::Failed(string_from_chars(&chars_of("Task returned no candidates")));
                    } else {
                        c.select.replace_items(select_items(&values));
                        c.load_state = LoadState::Ready;
                    }
                },
                Err(e) => {
                    c.load_state = LoadState::Failed(e);
                },
            }
        }
    }
}

} // verus!
