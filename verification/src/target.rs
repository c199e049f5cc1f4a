//! Choosing the destination pane: the terminal tree, the pane saved as the
//! destination, and the state of the periodic refresh of the pane list.
use vstd::prelude::*;

use crate::automation::Terminal;
use crate::cli::TerminalApplication;
use crate::display::{
    app_label, target_key, target_key_text, terminal_application_label, terminal_label,
    terminal_label_text, TerminalTarget,
};
use crate::search::TreeSelectItem;
use crate::select::NavigationDirection;
use crate::text::{chars_eq, chars_of, string_from_chars};
use crate::tree_select::{moved, navigated, replaced, TreeSelect};

verus! {

/// The state of the refresh of the pane list.
pub enum RefreshState {
    Idle,
    Loading,
    /// The last refresh failed with this message.
    Failed(String),
}

/// What the refresh task reports.
pub enum TerminalTargetUpdate {
    RefreshStarted,
    /// The panes found, or the message of the failure.
    RefreshFinished(Result<Vec<TerminalTarget>, String>),
}

/// What wakes the task that refreshes the pane list.
#[derive(Clone, Copy, Debug, PartialEq, Eq, Structural)]
pub enum RefreshWake {
    /// The refresh interval passed.
    Tick,
    /// The screen asked for a refresh now.
    Requested,
    /// The screen will ask for no more refreshes.
    RequestsClosed,
}

/// What the refresh task does next.
#[derive(Clone, Copy, Debug, PartialEq, Eq, Structural)]
pub enum RefreshStep {
    /// Report that a refresh starts, list the panes and report them, then
    /// drop the requests that came meanwhile and wait a whole interval.
    Refresh,
    /// Stop.
    Stop,
}

/// The refresh task lists the panes when the interval passes or when a
/// refresh is asked for, and stops once the screen asks for no more.
pub fn refresh_step(wake: RefreshWake) -> (res: RefreshStep)
    ensures
        res == if wake == RefreshWake::RequestsClosed {
            RefreshStep::Stop
        } else {
            RefreshStep::Refresh
        },
{
    match wake {
        RefreshWake::Tick | RefreshWake::Requested => RefreshStep::Refresh,
        RefreshWake::RequestsClosed => RefreshStep::Stop,
    }
}

/// Everything a destination shows and is told apart by.
pub open spec fn terminal_view(t: Terminal) -> (Seq<char>, Seq<char>, Seq<char>, usize, usize, usize) {
    (t.id@, t.name@, t.working_directory@, t.window_index, t.tab_index, t.terminal_index)
}

pub open spec fn target_view(t: TerminalTarget) -> (TerminalApplication, (Seq<char>, Seq<char>, Seq<char>, usize, usize, usize)) {
    (t.application, terminal_view(t.terminal))
}

pub open spec fn targets_view(ts: Seq<TerminalTarget>) -> Seq<(TerminalApplication, (Seq<char>, Seq<char>, Seq<char>, usize, usize, usize))> {
    ts.map_values(|t: TerminalTarget| target_view(t))
}

/// The tree item that shows destination `t`.
pub open spec fn describes(item: TreeSelectItem, t: TerminalTarget) -> bool {
    &&& item.key@ == target_key_text(t)
    &&& item.application@ == app_label(t.application)
    &&& item.window_index == t.terminal.window_index
    &&& item.tab_index == t.terminal.tab_index
    &&& item.pane_index == t.terminal.terminal_index
    &&& item.name@ == t.terminal.name@
    &&& item.working_directory@ == t.terminal.working_directory@
    &&& item.id@ == t.terminal.id@
}

/// The tree items show the destinations, one each, in order.
pub open spec fn items_describe(items: Seq<TreeSelectItem>, targets: Seq<TerminalTarget>) -> bool {
    items.len() == targets.len() && forall|k: int| 0 <= k < items.len() ==> describes(#[trigger] items[k], targets[k])
}

/// The first position at or after `from` of a destination with key `key`.
pub open spec fn first_target(targets: Seq<TerminalTarget>, key: Seq<char>, from: int) -> Option<int>
    decreases targets.len() - from,
{
    if from < 0 || from >= targets.len() {
        None
    } else if target_key_text(targets[from]) == key {
        Some(from)
    } else {
        first_target(targets, key, from + 1)
    }
}

/// The message of the refresh state, where there is one to show.
pub open spec fn status_text(state: RefreshState, last: Option<Seq<TerminalTarget>>) -> Option<Seq<char>> {
    match state {
        RefreshState::Loading => Some("Refreshing terminal panes…"@),
        RefreshState::Failed(e) => Some("Failed to refresh terminal panes: "@ + e@ + "\nPress Ctrl+R to retry"@),
        RefreshState::Idle => match last {
            Some(ts) => if ts.len() == 0 {
                Some("No terminal panes found. Press Ctrl+R or wait for refresh…"@)
            } else {
                None
            },
            None => None,
        },
    }
}

fn same_string(a: &String, b: &String) -> (res: bool)
    ensures
        res == (a@ == b@),
{
    chars_eq(&chars_of(a.as_str()), &chars_of(b.as_str()))
}

/// Whether two destinations are the same in everything they show.
fn same_target(a: &TerminalTarget, b: &TerminalTarget) -> (res: bool)
    ensures
        res == (target_view(*a) == target_view(*b)),
{
    a.application == b.application && same_string(&a.terminal.id, &b.terminal.id) && same_string(
        &a.terminal.name,
        &b.terminal.name,
    ) && same_string(&a.terminal.working_directory, &b.terminal.working_directory)
        && a.terminal.window_index == b.terminal.window_index && a.terminal.tab_index
        == b.terminal.tab_index && a.terminal.terminal_index == b.terminal.terminal_index
}

/// Whether two lists of destinations are the same.
fn same_targets(a: &Vec<TerminalTarget>, b: &Vec<TerminalTarget>) -> (res: bool)
    ensures
        res == (targets_view(a@) == targets_view(b@)),
{
    if a.len() != b.len() {
        assert(targets_view(a@).len() != targets_view(b@).len());
        return false;
    }
    let mut k: usize = 0;
    while k < a.len()
        invariant
            a.len() == b.len(),
            k <= a.len(),
            forall|j: int| 0 <= j < k ==> target_view(#[trigger] a@[j]) == target_view(b@[j]),
        decreases a.len() - k,
    {
        if !same_target(&a[k], &b[k]) {
            assert(targets_view(a@)[k as int] != targets_view(b@)[k as int]);
            return false;
        }
        k += 1;
    }
    assert(targets_view(a@) =~= targets_view(b@));
    true
}

fn copy_string(s: &String) -> (res: String)
    ensures
        res@ == s@,
{
    string_from_chars(&chars_of(s.as_str()))
}

/// The tree item that shows destination `t`.
fn item_for(t: &TerminalTarget) -> (res: TreeSelectItem)
    ensures
        describes(res, *t),
{
    TreeSelectItem {
        key: string_from_chars(&target_key(t)),
        application: string_from_chars(&chars_of(terminal_application_label(t.application))),
        window_index: t.terminal.window_index,
        tab_index: t.terminal.tab_index,
        pane_index: t.terminal.terminal_index,
        name: copy_string(&t.terminal.name),
        working_directory: copy_string(&t.terminal.working_directory),
        id: copy_string(&t.terminal.id),
    }
}

/// The position of the first destination with key `key`.
fn find_target(targets: &Vec<TerminalTarget>, key: &[char]) -> (res: Option<usize>)
    ensures
        match res {
            Some(k) => first_target(targets@, key@, 0) == Some(k as int) && k < targets.len(),
            None => first_target(targets@, key@, 0) is None,
        },
{
    let mut k: usize = 0;
    while k < targets.len()
        invariant
            k <= targets.len(),
            first_target(targets@, key@, 0) == first_target(targets@, key@, k as int),
        decreases targets.len() - k,
    {
        if chars_eq(&target_key(&targets[k]), key) {
            return Some(k);
        }
        k += 1;
    }
    None
}

/// `after` is `before` after a refresh that found `targets`: the state is
/// idle again, and where the panes differ from the last ones the tree shows
/// them and a saved destination that is gone is forgotten.
pub open spec fn refreshed(
    before: TerminalTargetSelector,
    after: TerminalTargetSelector,
    targets: Seq<TerminalTarget>,
) -> bool {
    &&& after.state_view() is Idle
    &&& after.applications_view() == before.applications_view()
    &&& match before.last_view() {
        Some(last) if targets_view(last) == targets_view(targets) => {
            &&& after.select_view() == before.select_view()
            &&& after.saved_key() == before.saved_key()
            &&& after.last_view() == before.last_view()
        },
        _ => {
            &&& after.last_view() == Some(targets)
            &&& items_describe(after.select_view().items_view(), targets)
            &&& replaced(before.select_view(), after.select_view(), after.select_view().items_view())
            &&& after.saved_key() == match before.saved_key() {
                Some(k) => if first_target(targets, k, 0) is Some {
                    Some(k)
                } else {
                    None
                },
                None => None,
            }
        },
    }
}

/// `after` is `before` after the refresh task reported `update`.
pub open spec fn updated(
    before: TerminalTargetSelector,
    after: TerminalTargetSelector,
    update: TerminalTargetUpdate,
) -> bool {
    match update {
        TerminalTargetUpdate::RefreshStarted => {
            &&& after.state_view() is Loading
            &&& after.applications_view() == before.applications_view()
            &&& after.select_view() == before.select_view()
            &&& after.saved_key() == before.saved_key()
            &&& after.last_view() == before.last_view()
        },
        TerminalTargetUpdate::RefreshFinished(Err(e)) => {
            &&& after.state_view() == RefreshState::Failed(e)
            &&& after.applications_view() == before.applications_view()
            &&& after.select_view() == before.select_view()
            &&& after.saved_key() == before.saved_key()
            &&& after.last_view() == before.last_view()
        },
        TerminalTargetUpdate::RefreshFinished(Ok(targets)) => refreshed(before, after, targets@),
    }
}

/// The destination chooser.
pub struct TerminalTargetSelector {
    select: TreeSelect,
    selected_key: Option<String>,
    applications: Vec<TerminalApplication>,
    last_targets: Option<Vec<TerminalTarget>>,
    refresh_state: RefreshState,
}

impl TerminalTargetSelector {
    /// The terminal tree.
    pub closed spec fn select_view(self) -> TreeSelect {
        self.select
    }

    /// The key of the destination saved.
    pub closed spec fn saved_key(self) -> Option<Seq<char>> {
        match self.selected_key {
            Some(k) => Some(k@),
            None => None,
        }
    }

    /// The applications whose panes are listed.
    pub closed spec fn applications_view(self) -> Seq<TerminalApplication> {
        self.applications@
    }

    /// The panes of the last refresh that succeeded.
    pub closed spec fn last_view(self) -> Option<Seq<TerminalTarget>> {
        match self.last_targets {
            Some(ts) => Some(ts@),
            None => None,
        }
    }

    /// The state of the refresh.
    pub closed spec fn state_view(self) -> RefreshState {
        self.refresh_state
    }

    /// The saved destination: the first pane of the last refresh with the
    /// saved key.
    pub open spec fn selected_view(self) -> Option<TerminalTarget> {
        match (self.saved_key(), self.last_view()) {
            (Some(k), Some(ts)) => match first_target(ts, k, 0) {
                Some(i) => Some(ts[i]),
                None => None,
            },
            _ => None,
        }
    }

    /// No panes yet and nothing saved.
    pub fn new(applications: Vec<TerminalApplication>) -> (res: TerminalTargetSelector)
        ensures
            res.applications_view() == applications@,
            res.saved_key() is None,
            res.last_view() is None,
            res.state_view() is Idle,
            res.select_view().items_view().len() == 0,
            res.select_view().query_view().len() == 0,
    {
        TerminalTargetSelector {
            select: TreeSelect::new(20),
            selected_key: None,
            applications,
            last_targets: None,
            refresh_state: RefreshState::Idle,
        }
    }

    /// The applications whose panes are listed.
    pub fn applications(&self) -> (res: &Vec<TerminalApplication>)
        ensures
            res@ == self.applications_view(),
    {
        &self.applications
    }

    /// The terminal tree.
    pub fn select(&self) -> (res: &TreeSelect)
        ensures
            *res == self.select_view(),
    {
        &self.select
    }

    /// A refresh is under way.
    pub fn is_loading(&self) -> (res: bool)
        ensures
            res == self.state_view() is Loading,
    {
        match self.refresh_state {
            RefreshState::Loading => true,
            _ => false,
        }
    }

    /// Records that a refresh was requested.
    pub fn refresh_requested(&mut self)
        ensures
            final(self).state_view() is Loading,
            final(self).select_view() == old(self).select_view(),
            final(self).saved_key() == old(self).saved_key(),
            final(self).last_view() == old(self).last_view(),
            final(self).applications_view() == old(self).applications_view(),
    {
        self.refresh_state = RefreshState::Loading;
    }

    /// Takes in the panes of a refresh: the state goes back to idle, and
    /// where the panes differ from the last ones the tree shows them and a
    /// saved destination that is gone is forgotten.
    pub fn apply_refresh(&mut self, targets: Vec<TerminalTarget>)
        ensures
            refreshed(*old(self), *final(self), targets@),
    {
        self.refresh_state = RefreshState::Idle;
        if let Some(last) = &self.last_targets {
            if same_targets(last, &targets) {
                return;
            }
        }
        let mut items: Vec<TreeSelectItem> = Vec::new();
        let mut k: usize = 0;
        while k < targets.len()
            invariant
                k <= targets.len(),
                items@.len() == k,
                forall|j: int| 0 <= j < k ==> describes(#[trigger] items@[j], targets@[j]),
            decreases targets.len() - k,
        {
            items.push(item_for(&targets[k]));
            k += 1;
        }
        self.select.replace_items(items);
        let keep = match &self.selected_key {
            Some(key) => find_target(&targets, &chars_of(key.as_str())).is_some(),
            None => false,
        };
        if !keep {
            self.selected_key = None;
        }
        self.last_targets = Some(targets);
    }

    /// Takes in a report of the refresh task.
    pub fn apply_update(&mut self, update: TerminalTargetUpdate)
        ensures
            updated(*old(self), *final(self), update),
    {
        match update {
            TerminalTargetUpdate::RefreshStarted => {
                self.refresh_state = RefreshState::Loading;
            },
            TerminalTargetUpdate::RefreshFinished(Ok(targets)) => {
                self.apply_refresh(targets);
            },
            TerminalTargetUpdate::RefreshFinished(Err(e)) => {
                self.refresh_state = RefreshState::Failed(e);
            },
        }
    }

    /// Saves the selected pane as the destination; says whether one was
    /// selected.
    pub fn save(&mut self) -> (res: bool)
        ensures
            res == old(self).select_view().selected_key_view() is Some,
            final(self).saved_key() == if res {
                old(self).select_view().selected_key_view()
            } else {
                old(self).saved_key()
            },
            final(self).select_view() == old(self).select_view(),
            final(self).last_view() == old(self).last_view(),
            final(self).state_view() == old(self).state_view(),
            final(self).applications_view() == old(self).applications_view(),
    {
        let key = match self.select.selected_key() {
            Some(k) => string_from_chars(&chars_of(k)),
            None => return false,
        };
        self.selected_key = Some(key);
        true
    }

    /// The saved destination.
    pub fn selected(&self) -> (res: Option<&TerminalTarget>)
        ensures
            match res {
                Some(t) => self.selected_view() == Some(*t),
                None => self.selected_view() is None,
            },
    {
        let key = match &self.selected_key {
            Some(k) => chars_of(k.as_str()),
            None => return None,
        };
        let targets = match &self.last_targets {
            Some(ts) => ts,
            None => return None,
        };
        match find_target(targets, &key) {
            Some(k) => Some(&targets[k]),
            None => None,
        }
    }

    /// The saved destination in one line, or `not set`.
    pub fn value_label(&self) -> (res: String)
        ensures
            res@ == match self.selected_view() {
                Some(t) => terminal_label_text(t),
                None => "not set"@,
            },
    {
        match self.selected() {
            Some(t) => terminal_label(t),
            None => string_from_chars(&chars_of("not set")),
        }
    }

    /// What the refresh has to say: that it runs, why it failed, or that it
    /// found no panes.
    pub fn status_message(&self) -> (res: Option<String>)
        ensures
            match res {
                Some(m) => status_text(self.state_view(), self.last_view()) == Some(m@),
                None => status_text(self.state_view(), self.last_view()) is None,
            },
    {
        match &self.refresh_state {
            RefreshState::Loading => Some(string_from_chars(&chars_of("Refreshing terminal panes…"))),
            RefreshState::Failed(e) => {
                let mut text = chars_of("Failed to refresh terminal panes: ");
                crate::text::push_all(&mut text, &chars_of(e.as_str()));
                crate::text::push_all(&mut text, &chars_of("\nPress Ctrl+R to retry"));
                Some(string_from_chars(&text))
            },
            RefreshState::Idle => match &self.last_targets {
                Some(ts) => if ts.len() == 0 {
                    Some(
                        string_from_chars(
                            &chars_of("No terminal panes found. Press Ctrl+R or wait for refresh…"),
                        ),
                    )
                } else {
                    None
                },
                None => None,
            },
        }
    }
}


/// The destination chooser is `before` with its tree changed by an action
/// that leaves the panes, the saved key and the refresh state alone.
pub open spec fn tree_changed(before: TerminalTargetSelector, after: TerminalTargetSelector) -> bool {
    &&& after.saved_key() == before.saved_key()
    &&& after.last_view() == before.last_view()
    &&& after.state_view() == before.state_view()
    &&& after.applications_view() == before.applications_view()
}

impl TerminalTargetSelector {
    /// Moves the tree's selection.
    pub fn navigate(&mut self, direction: NavigationDirection) -> (res: bool)
        ensures
            tree_changed(*old(self), *final(self)),
            navigated(old(self).select_view(), final(self).select_view(), direction),
            res == moved(
                old(self).select_view().selected_view(),
                old(self).select_view().candidates_view().len(),
                direction,
            ) is Some,
    {
        self.select.navigate(direction)
    }

    /// Selects the pane at a row of the tree's viewport.
    pub fn select_at(&mut self, row: usize) -> (res: bool)
        ensures
            tree_changed(*old(self), *final(self)),
            final(self).select_view().viewport_view() == old(self).select_view().viewport_view(),
            final(self).select_view().scrolled_view() == old(self).select_view().scrolled_view(),
            res == old(self).select_view().candidate_at(row as nat) is Some,
            final(self).select_view().selected_view() == match old(self).select_view().candidate_at(row as nat) {
                Some(p) => Some(p),
                None => old(self).select_view().selected_view(),
            },
            crate::tree_select::same_content(final(self).select_view(), old(self).select_view()),
    {
        self.select.select_at(row)
    }

    /// Scrolls the tree one row up or down, where it can; the viewport then
    /// counts as moved by hand if it moved.
    pub fn scroll(&mut self, up: bool)
        ensures
            tree_changed(*old(self), *final(self)),
            crate::tree_select::same_content(final(self).select_view(), old(self).select_view()),
            final(self).select_view().selected_view() == old(self).select_view().selected_view(),
            final(self).select_view().viewport_view() == if up {
                crate::tree_select::minus(old(self).select_view().viewport_view() as int, 1)
            } else {
                crate::tree_select::min_nat(
                    old(self).select_view().viewport_view() + 1,
                    old(self).select_view().max_start(),
                )
            },
            final(self).select_view().scrolled_view() == (old(self).select_view().scrolled_view()
                || final(self).select_view().viewport_view() != old(self).select_view().viewport_view()),
    {
        if up {
            self.select.scroll_backward();
        } else {
            self.select.scroll_forward();
        }
    }

    /// The tree's query is now `query`.
    pub fn set_query(&mut self, query: &[char])
        ensures
            tree_changed(*old(self), *final(self)),
            final(self).select_view().query_view() == query@,
            final(self).select_view().items_view() == old(self).select_view().items_view(),
    {
        self.select.set_query(query);
    }
}


impl TerminalTargetSelector {
    /// The saved destination, taken out.
    pub fn into_selected(self) -> (res: Option<TerminalTarget>)
        ensures
            res == self.selected_view(),
    {
        let key = match &self.selected_key {
            Some(k) => chars_of(k.as_str()),
            None => return None,
        };
        let mut targets = match self.last_targets {
            Some(ts) => ts,
            None => return None,
        };
        match find_target(&targets, &key) {
            Some(k) => Some(targets.remove(k)),
            None => None,
        }
    }
}


/// The destinations of the panes an application listed.
pub open spec fn hosted(application: TerminalApplication, terminals: Seq<Terminal>) -> Seq<TerminalTarget> {
    terminals.map_values(|t: Terminal| TerminalTarget { application, terminal: t })
}

/// Adds the panes that `application` listed to `targets`, or fails with
/// the application's name where listing them failed.
pub fn add_listing(
    targets: Vec<TerminalTarget>,
    application: TerminalApplication,
    listed: Result<Vec<Terminal>, String>,
) -> (res: Result<Vec<TerminalTarget>, String>)
    ensures
        match listed {
            Ok(terminals) => res matches Ok(ts) && ts@ == targets@ + hosted(application, terminals@),
            Err(e) => res matches Err(m) && m@ == "failed to list "@ + crate::cli::app_name(application)
                + " targets: "@ + e@,
        },
{
    match listed {
        Ok(terminals) => {
            let mut all = targets;
            let ghost start = all@;
            let mut rest = terminals;
            let ghost listed_view = rest@;
            let mut k: usize = 0;
            assert(listed_view.len() == rest.len());
            proof {
                assert(listed_view.skip(0) =~= listed_view);
                assert(hosted(application, listed_view.take(0)) =~= Seq::<TerminalTarget>::empty());
            }
            while rest.len() > 0
                invariant
                    k + rest@.len() == listed_view.len(),
                    listed_view.len() <= usize::MAX,
                    rest@ == listed_view.skip(k as int),
                    all@ == start + hosted(application, listed_view.take(k as int)),
                decreases rest.len(),
            {
                let t = rest.remove(0);
                all.push(TerminalTarget { application, terminal: t });
                proof {
                    assert(rest@ =~= listed_view.skip(k + 1));
                    assert(hosted(application, listed_view.take(k + 1)) =~= hosted(application, listed_view.take(k as int)).push(
                        TerminalTarget { application, terminal: listed_view[k as int] },
                    ));
                }
                k += 1;
            }
            proof {
                assert(listed_view.take(k as int) =~= listed_view);
            }
            Ok(all)
        },
        Err(e) => {
            let mut text = chars_of("failed to list ");
            crate::text::push_all(&mut text, &chars_of(application.name()));
            crate::text::push_all(&mut text, &chars_of(" targets: "));
            crate::text::push_all(&mut text, &chars_of(e.as_str()));
            Err(string_from_chars(&text))
        },
    }
}

} // verus!
