//! Choosing the workflow: the YAML files of a directory, or one file given
//! directly, and the workflow loaded from the file saved.
use vstd::prelude::*;
use vstd::relations::sorted_by;

use crate::select::{first_suggestion, select_navigated, NavigationDirection, Select, SelectItem};
use crate::sort::{sort_by_name, text_le};
use crate::text::{chars_of, lower, lowercase, push_all, string_from_chars};
use crate::workflow::Workflow;

verus! {

broadcast use vstd::seq_lib::group_to_multiset_ensures;

/// The extension of a file name: what follows its last dot, where that dot
/// is not its first character.
pub open spec fn extension_of(name: Seq<char>) -> Option<Seq<char>> {
    match last_dot(name, name.len() as int) {
        Some(i) => if i > 0 {
            Some(name.subrange(i + 1, name.len() as int))
        } else {
            None
        },
        None => None,
    }
}

/// The position of the last dot before `end`.
pub open spec fn last_dot(name: Seq<char>, end: int) -> Option<int>
    decreases end,
{
    if end <= 0 {
        None
    } else if name[end - 1] == '.' {
        Some(end - 1)
    } else {
        last_dot(name, end - 1)
    }
}

/// A YAML file: its extension is `yaml` or `yml`, ASCII case ignored.
pub open spec fn is_yaml_name(name: Seq<char>) -> bool {
    match extension_of(name) {
        Some(ext) => lower(ext) == "yaml"@ || lower(ext) == "yml"@,
        None => false,
    }
}

/// Whether a file name ends in a YAML extension.
pub fn is_yaml(name: &str) -> (res: bool)
    ensures
        res == is_yaml_name(name@),
{
    let chars = chars_of(name);
    let mut end: usize = chars.len();
    while end > 0 && chars[end - 1] != '.'
        invariant
            end <= chars@.len(),
            chars@ == name@,
            last_dot(name@, name@.len() as int) == last_dot(name@, end as int),
        decreases end,
    {
        end -= 1;
    }
    if end <= 1 {
        return false;
    }
    let mut ext: Vec<char> = Vec::new();
    let mut k: usize = end;
    while k < chars.len()
        invariant
            end <= k <= chars@.len(),
            ext@ == chars@.subrange(end as int, k as int),
        decreases chars@.len() - k,
    {
        ext.push(chars[k]);
        k += 1;
        assert(ext@ =~= chars@.subrange(end as int, k as int));
    }
    let lowered = lowercase(&ext);
    crate::text::chars_eq(&lowered, &chars_of("yaml")) || crate::text::chars_eq(&lowered, &chars_of("yml"))
}

/// The workflow saved, and the file it came from.
pub struct WorkflowSelection {
    pub path: String,
    pub file_name: String,
    pub workflow: Workflow,
}

/// What saving the selected file takes.
pub enum SaveStep {
    /// No file is selected.
    Nothing,
    /// The selected file is the one already loaded.
    Keep,
    /// The selected file, at this path, must be loaded.
    Load(String),
}

/// The workflow chooser.
pub struct WorkflowSelector {
    select: Select<String>,
    selection: Option<WorkflowSelection>,
    error: Option<String>,
}

/// The entries, each a path and its file name, that name YAML files, in
/// order.
pub open spec fn yaml_entries(entries: Seq<(String, String)>) -> Seq<(String, String)>
    decreases entries.len(),
{
    if entries.len() == 0 {
        Seq::empty()
    } else {
        let rest = yaml_entries(entries.drop_last());
        if is_yaml_name(entries.last().1@) {
            rest.push(entries.last())
        } else {
            rest
        }
    }
}

/// The items of a listing that the chooser offers: the YAML files, by
/// file name, each keyed by its path, labelled by its file name, with its
/// path as value.
pub open spec fn offered(entries: Seq<(String, String)>, items: Seq<SelectItem<String>>) -> bool {
    exists|sorted: Seq<(String, String)>|
        {
            &&& #[trigger] sorted.to_multiset() == yaml_entries(entries).to_multiset()
            &&& sorted_by(sorted, |a: (String, String), b: (String, String)| text_le(a.1@, b.1@))
            &&& items.len() == sorted.len()
            &&& forall|k: int|
                0 <= k < items.len() ==> {
                    &&& (#[trigger] items[k]).key == sorted[k].0
                    &&& items[k].value == sorted[k].0
                    &&& items[k].label == sorted[k].1
                }
        }
}

impl WorkflowSelector {
    pub closed spec fn select_view(self) -> Select<String> {
        self.select
    }

    /// The path, file name and name of the workflow saved.
    pub closed spec fn selection_view(self) -> Option<(Seq<char>, Seq<char>, Seq<char>)> {
        match self.selection {
            Some(s) => Some((s.path@, s.file_name@, s.workflow.workflow_name()@)),
            None => None,
        }
    }

    /// The workflow saved.
    pub closed spec fn selected_workflow(self) -> Option<Workflow> {
        match self.selection {
            Some(s) => Some(s.workflow),
            None => None,
        }
    }

    pub closed spec fn error_view(self) -> Option<Seq<char>> {
        match self.error {
            Some(e) => Some(e@),
            None => None,
        }
    }

    /// Offers the YAML files among `entries`, each a path and its file name,
    /// by file name; with nothing saved. Fails where there is none.
    pub fn from_directory(directory: &str, entries: Vec<(String, String)>) -> (res: Result<WorkflowSelector, String>)
        ensures
            match res {
                Ok(s) => {
                    &&& offered(entries@, s.select_view().items())
                    &&& s.select_view().items().len() > 0
                    &&& s.select_view().query().len() == 0
                    &&& s.select_view().selected_position() == first_suggestion(
                        s.select_view().items(),
                        s.select_view().query(),
                    )
                    &&& s.selection_view() is None
                    &&& s.error_view() is None
                },
                Err(e) => {
                    &&& yaml_entries(entries@).len() == 0
                    &&& e@ == "workflow directory "@ + directory@ + " contains no YAML files"@
                },
            },
    {
        let mut yaml: Vec<(String, String)> = Vec::new();
        let ghost entries_view = entries@;
        let mut rest = entries;
        let ghost all = rest@;
        let mut taken: usize = 0;
        assert(all.len() == rest.len());
        proof {
            assert(all.take(0) =~= Seq::<(String, String)>::empty());
            assert(all.skip(0) =~= all);
        }
        while rest.len() > 0
            invariant
                all.len() <= usize::MAX,
                taken + rest@.len() == all.len(),
                rest@ == all.skip(taken as int),
                yaml@ == yaml_entries(all.take(taken as int)),
            decreases rest.len(),
        {
            let ghost before = rest@;
            let entry = rest.remove(0);
            proof {
                assert(all.take(taken + 1).drop_last() =~= all.take(taken as int));
                assert(all.take(taken + 1).last() == entry);
                assert(rest@ =~= all.skip(taken + 1));
            }
            if is_yaml(entry.1.as_str()) {
                yaml.push(entry);
            }
            taken += 1;
        }
        proof {
            assert(all.take(all.len() as int) =~= all);
        }
        if yaml.len() == 0 {
            let mut text = chars_of("workflow directory ");
            push_all(&mut text, &chars_of(directory));
            push_all(&mut text, &chars_of(" contains no YAML files"));
            return Err(string_from_chars(&text));
        }
        let sorted = sort_by_name(yaml);
        let mut items: Vec<SelectItem<String>> = Vec::new();
        let mut k: usize = 0;
        while k < sorted.len()
            invariant
                k <= sorted.len(),
                items@.len() == k,
                forall|j: int|
                    0 <= j < k ==> {
                        &&& (#[trigger] items@[j]).key == sorted@[j].0
                        &&& items@[j].value == sorted@[j].0
                        &&& items@[j].label == sorted@[j].1
                    },
            decreases sorted.len() - k,
        {
            let (path, name) = (&sorted[k].0, &sorted[k].1);
            items.push(SelectItem::new(path.clone(), name.clone(), path.clone()));
            k += 1;
        }
        let mut select: Select<String> = Select::new();
        select.replace_items(items);
        proof {
            assert(sorted@.to_multiset() == yaml_entries(entries_view).to_multiset());
            assert(yaml_entries(entries_view).to_multiset().len() == yaml_entries(entries_view).len());
            assert(sorted@.to_multiset().len() == sorted@.len());
            assert(select.items().len() > 0);
        }
        Ok(WorkflowSelector { select, selection: None, error: None })
    }
}


/// `after` is `before` after saving the selected file, given what loading
/// it gave where it had to be loaded; `res` says whether the saved
/// workflow changed, or is `None` where nothing was saved.
pub open spec fn saves(
    before: WorkflowSelector,
    after: WorkflowSelector,
    loaded: Option<Result<Workflow, String>>,
    res: Option<bool>,
) -> bool {
    &&& after.select_view() == before.select_view()
    &&& after.selected_workflow() == match (before.step_view(), loaded) {
        (SaveStep::Load(_), Some(Ok(w))) => Some(w),
        _ => before.selected_workflow(),
    }
    &&& match before.step_view() {
        SaveStep::Nothing => res is None && after.selection_view() == before.selection_view()
            && after.error_view() == before.error_view(),
        SaveStep::Keep => res == Some(false) && after.selection_view() == before.selection_view()
            && after.error_view() is None,
        SaveStep::Load(path) => match loaded {
            Some(Ok(w)) => {
                &&& res == Some(true)
                &&& after.selection_view() == Some(
                    (
                        path@,
                        before.select_view().selected_item().unwrap().label@,
                        w.workflow_name()@,
                    ),
                )
                &&& after.error_view() is None
            },
            Some(Err(e)) => res is None && after.selection_view() == before.selection_view()
                && after.error_view() == Some(e@),
            None => res is None && after.selection_view() == before.selection_view()
                && after.error_view() == before.error_view(),
        },
    }
}

impl WorkflowSelector {
    /// What saving the selected file takes: nothing where none is selected,
    /// nothing more where it is the file already loaded, else loading it.
    pub open spec fn step_view(self) -> SaveStep {
        match self.select_view().selected_item() {
            None => SaveStep::Nothing,
            Some(item) => match self.selection_view() {
                Some((path, _, _)) => if path == item.value@ {
                    SaveStep::Keep
                } else {
                    SaveStep::Load(item.value)
                },
                None => SaveStep::Load(item.value),
            },
        }
    }

    /// Offers the one file given, with its workflow already loaded.
    pub fn from_file(path: String, file_name: String, workflow: Workflow) -> (res: WorkflowSelector)
        ensures
            res.select_view().items().len() == 1,
            res.select_view().items()[0].key@ == path@,
            res.select_view().items()[0].label@ == file_name@,
            res.select_view().items()[0].value@ == path@,
            res.select_view().query().len() == 0,
            res.select_view().selected_position() == first_suggestion(
                res.select_view().items(),
                res.select_view().query(),
            ),
            res.selection_view() == Some((path@, file_name@, workflow.workflow_name()@)),
            res.error_view() is None,
    {
        let mut items: Vec<SelectItem<String>> = Vec::new();
        items.push(SelectItem::new(path.clone(), file_name.clone(), path.clone()));
        let mut select: Select<String> = Select::new();
        select.replace_items(items);
        WorkflowSelector { select, selection: Some(WorkflowSelection { path, file_name, workflow }), error: None }
    }

    /// The workflow saved.
    pub fn selected(&self) -> (res: Option<&Workflow>)
        ensures
            match res {
                Some(w) => self.selected_workflow() == Some(*w),
                None => self.selected_workflow() is None,
            },
            self.selected_workflow() is Some == self.selection_view() is Some,
            self.selected_workflow() matches Some(w) ==> self.selection_view().unwrap().2 == w.workflow_name()@,
    {
        match &self.selection {
            Some(s) => Some(&s.workflow),
            None => None,
        }
    }

    /// `<workflow name> — <file name>`, or `not set`.
    pub fn value_label(&self) -> (res: String)
        ensures
            res@ == match self.selection_view() {
                Some((_, file_name, name)) => name + " — "@ + file_name,
                None => "not set"@,
            },
    {
        match &self.selection {
            Some(s) => {
                let mut text = chars_of(s.workflow.name());
                push_all(&mut text, &chars_of(" — "));
                push_all(&mut text, &chars_of(s.file_name.as_str()));
                string_from_chars(&text)
            },
            None => string_from_chars(&chars_of("not set")),
        }
    }

    /// The error of the last file that failed to load.
    pub fn error_message(&self) -> (res: Option<&str>)
        ensures
            match res {
                Some(e) => self.error_view() == Some(e@),
                None => self.error_view() is None,
            },
    {
        match &self.error {
            Some(e) => Some(e.as_str()),
            None => None,
        }
    }

    /// The file list, to show it.
    pub fn select(&self) -> (res: &Select<String>)
        ensures
            *res == self.select_view(),
    {
        &self.select
    }

    /// What saving the selected file takes.
    pub fn save_step(&self) -> (res: SaveStep)
        ensures
            match (res, self.step_view()) {
                (SaveStep::Nothing, SaveStep::Nothing) => true,
                (SaveStep::Keep, SaveStep::Keep) => true,
                (SaveStep::Load(p), SaveStep::Load(q)) => p@ == q@,
                _ => false,
            },
    {
        let path = match self.select.selected() {
            Some(p) => p,
            None => return SaveStep::Nothing,
        };
        match &self.selection {
            Some(s) => if crate::text::chars_eq(&chars_of(s.path.as_str()), &chars_of(path.as_str())) {
                SaveStep::Keep
            } else {
                SaveStep::Load(path.clone())
            },
            None => SaveStep::Load(path.clone()),
        }
    }

    /// Saves the selected file, given what loading it gave where it had to
    /// be loaded: the workflow, saved with its file; or the error, kept to
    /// be shown. Says whether the saved workflow changed, or `None` where
    /// nothing was saved.
    pub fn save(&mut self, loaded: Option<Result<Workflow, String>>) -> (res: Option<bool>)
        ensures
            saves(*old(self), *final(self), loaded, res),
    {
        let step = self.save_step();
        match step {
            SaveStep::Nothing => None,
            SaveStep::Keep => {
                self.error = None;
                Some(false)
            },
            SaveStep::Load(path) => match loaded {
                Some(Ok(workflow)) => {
                    let file_name = match self.select.selected_label() {
                        Some(l) => l,
                        None => return None,
                    };
                    self.selection = Some(WorkflowSelection { path, file_name, workflow });
                    self.error = None;
                    Some(true)
                },
                Some(Err(e)) => {
                    self.error = Some(e);
                    None
                },
                None => None,
            },
        }
    }

    /// Forgets the error, as any key does.
    pub fn clear_error(&mut self)
        ensures
            final(self).select_view() == old(self).select_view(),
            final(self).selection_view() == old(self).selection_view(),
            final(self).selected_workflow() == old(self).selected_workflow(),
            final(self).error_view() is None,
    {
        self.error = None;
    }

    /// The file list's query is now `query`.
    pub fn set_query(&mut self, query: &[char])
        ensures
            final(self).select_view().items() == old(self).select_view().items(),
            final(self).select_view().query() == query@,
            final(self).select_view().selected_position() == first_suggestion(
                old(self).select_view().items(),
                query@,
            ),
            final(self).selection_view() == old(self).selection_view(),
            final(self).selected_workflow() == old(self).selected_workflow(),
            final(self).error_view() is None,
    {
        self.error = None;
        self.select.set_query(query);
    }

    /// Moves through the files, forgetting the error.
    pub fn navigate(&mut self, direction: NavigationDirection) -> (res: bool)
        ensures
            select_navigated(old(self).select_view(), final(self).select_view(), direction),
            res == (final(self).select_view().selected_position() != old(self).select_view().selected_position()),
            final(self).selection_view() == old(self).selection_view(),
            final(self).selected_workflow() == old(self).selected_workflow(),
            final(self).error_view() is None,
    {
        self.error = None;
        self.select.navigate(direction)
    }

    /// Selects the file shown at `row`, where there is one.
    pub fn select_at(&mut self, row: usize) -> (res: bool)
        ensures
            final(self).select_view().items() == old(self).select_view().items(),
            final(self).select_view().query() == old(self).select_view().query(),
            res == (row < old(self).select_view().suggestions().len()),
            final(self).select_view().selected_position() == if res {
                Some(row)
            } else {
                old(self).select_view().selected_position()
            },
            final(self).selection_view() == old(self).selection_view(),
            final(self).selected_workflow() == old(self).selected_workflow(),
            final(self).error_view() == old(self).error_view(),
    {
        self.select.select_at(row)
    }
}


impl WorkflowSelector {
    /// The workflow saved, taken out.
    pub fn into_selected(self) -> (res: Option<Workflow>)
        ensures
            res == self.selected_workflow(),
    {
        match self.selection {
            Some(s) => Some(s.workflow),
            None => None,
        }
    }
}

} // verus!
