//! What holds of the library across its operations and inputs.
use vstd::prelude::*;

use crate::automation::tmux::{describes_pane, fields_of, window_key, windows_seen};
use crate::automation::Terminal;
use crate::delivery::{next_step, Delivery};
use crate::display::{compact_text, expand_newlines, COMPACT_LIMIT};
use crate::field::InputField;
use crate::input::{candidate_lines, string_views, InputDefinition};
use crate::screen::outcome_candidates;
use crate::task::{run_outcome, CommandRun};
use crate::text::{
    free_of, is_white, joined_lines, lemma_lines_free, lemma_lines_of_joined, lemma_trimmed_is_trim_fixed, lines_of,
};
use vstd::utf8::{decode_utf8, valid_utf8};
use crate::order::{count_eq, count_first};
use crate::field::{FieldControl, LoadState};
use crate::select::NavigationDirection;
use crate::screen::{
    focused_saved, load_due, moved_within, navigated_screen, focus_moved,
    can_submit, invalidated, invalidated_names, key_handled, next_focus, previous_focus, saved_and_submitted,
    saved_map, submit_outcome, submitted, valid_focus, waits_for_any, Focus, InputScreen, Key, KeyOutcome,
    ScreenAction,
};
use crate::workflow::Workflow;
use crate::search::{item_matches, QueryClause, TreeSelectItem};
use crate::select::{index_in, matching_upto, SelectItem};
use crate::text::{decimal, is_prefix, trim};
use crate::tree::{
    any_matched, app_block, app_key, app_rows_from, apps_of, branch_row, in_group, members, pane_row, pane_rows_from,
    panes_of, tab_rows_from, tabs_of, tree_rows, window_rows_from, windows_of, RowView,
};
use crate::order::{distinct_order, lemma_distinct_order_unique};
use crate::tree_select::{candidates_for, first_key, passes, reselect};
use crate::workflow::render_inputs;

use crate::search::{clause_holds, clause_of, colon_index, contains_ignoring_case, location_text, NumberField, TextField};
use crate::text::parse_usize_spec;
use crate::sort::target_le;
use crate::display::TerminalTarget;
use crate::tree_select::{moved, navigated, TreeSelect};
use crate::screen::first_blocking;
use crate::text::lower;
use vstd::relations::sorted_by;

verus! {

/// Every candidate is the trimmed form of some line, and not empty.
proof fn lemma_candidates_come_from_lines(lines: Seq<Seq<char>>)
    ensures
        forall|k: int|
            0 <= k < candidate_lines(lines).len() ==> exists|i: int|
                0 <= i < lines.len() && #[trigger] candidate_lines(lines)[k] == trim(lines[i])
                    && candidate_lines(lines)[k].len() > 0,
    decreases lines.len(),
{
    if lines.len() > 0 {
        let front = lines.drop_last();
        lemma_candidates_come_from_lines(front);
        let rest = candidate_lines(front);
        let c = candidate_lines(lines);
        assert forall|k: int| 0 <= k < c.len() implies exists|i: int|
            0 <= i < lines.len() && #[trigger] c[k] == trim(lines[i]) && c[k].len() > 0 by {
            if k < rest.len() {
                assert(c[k] == rest[k]);
                let i = choose|i: int| 0 <= i < front.len() && #[trigger] rest[k] == trim(front[i]) && rest[k].len() > 0;
                assert(front[i] == lines[i]);
                assert(c[k] == trim(lines[i]));
            } else {
                assert(c[k] == trim(lines[lines.len() - 1]));
            }
        }
    }
}

/// Lines that are already trimmed and not empty are their own candidates.
proof fn lemma_candidates_of_trimmed(c: Seq<Seq<char>>)
    requires
        forall|k: int| 0 <= k < c.len() ==> (#[trigger] c[k]).len() > 0 && trim(c[k]) == c[k],
    ensures
        candidate_lines(c) == c,
    decreases c.len(),
{
    if c.len() > 0 {
        let front = c.drop_last();
        assert forall|k: int| 0 <= k < front.len() implies (#[trigger] front[k]).len() > 0 && trim(front[k]) == front[k] by {
            assert(front[k] == c[k]);
        }
        lemma_candidates_of_trimmed(front);
        assert(c[c.len() - 1].len() > 0);
        assert(front.push(c.last()) =~= c);
    } else {
        assert(c =~= Seq::<Seq<char>>::empty());
    }
}

/// Decoding the candidates of a command's output again, joined one per
/// line, gives the same candidates.
pub proof fn law_decoded_candidates_decode_to_themselves(output: Seq<char>)
    ensures
        candidate_lines(lines_of(joined_lines(candidate_lines(lines_of(output))))) == candidate_lines(
            lines_of(output),
        ),
{
    let lines = lines_of(output);
    let c = candidate_lines(lines);
    lemma_candidates_come_from_lines(lines);
    lemma_lines_free(output);
    assert forall|k: int| 0 <= k < c.len() implies free_of(#[trigger] c[k], '\n') && c[k].len() > 0
        && c[k].last() != '\r' && trim(c[k]) == c[k] by {
        let i = choose|i: int| 0 <= i < lines.len() && #[trigger] c[k] == trim(lines[i]) && c[k].len() > 0;
        lemma_trimmed_is_trim_fixed(lines[i]);
        assert(free_of(lines[i], '\n'));
        assert forall|j: int| 0 <= j < c[k].len() implies c[k][j] != '\n' by {
            let m = choose|m: int| 0 <= m < lines[i].len() && #[trigger] trim(lines[i])[j] == lines[i][m];
        }
        assert(is_white('\r'));
    }
    lemma_lines_of_joined(c);
    lemma_candidates_of_trimmed(c);
}

/// A row without the marks that a query sets.
pub open spec fn unmarked(r: RowView) -> RowView {
    RowView {
        depth: r.depth,
        label: r.label,
        selectable: false,
        matched: false,
        contains_match: false,
        item_index: r.item_index,
        root_index: r.root_index,
        ancestor_last: r.ancestor_last,
        is_last: r.is_last,
    }
}

/// The rows without the marks that a query sets.
pub open spec fn row_shape(rows: Seq<RowView>) -> Seq<RowView> {
    rows.map_values(|r: RowView| unmarked(r))
}

proof fn lemma_shape_concat(a: Seq<RowView>, b: Seq<RowView>)
    ensures
        row_shape(a + b) == row_shape(a) + row_shape(b),
{
    assert(row_shape(a + b) =~= row_shape(a) + row_shape(b));
}

proof fn lemma_pane_shape(
    items: Seq<TreeSelectItem>,
    m1: Seq<bool>,
    m2: Seq<bool>,
    panes: Seq<int>,
    j: int,
    al: Seq<bool>,
    root: nat,
)
    ensures
        row_shape(pane_rows_from(items, m1, panes, j, al, root)) == row_shape(
            pane_rows_from(items, m2, panes, j, al, root),
        ),
    decreases panes.len() - j,
{
    if 0 <= j < panes.len() {
        lemma_pane_shape(items, m1, m2, panes, j + 1, al, root);
        let last = j == panes.len() - 1;
        let r1 = seq![pane_row(items, m1, panes[j], root, al, last)];
        let r2 = seq![pane_row(items, m2, panes[j], root, al, last)];
        lemma_shape_concat(r1, pane_rows_from(items, m1, panes, j + 1, al, root));
        lemma_shape_concat(r2, pane_rows_from(items, m2, panes, j + 1, al, root));
        assert(row_shape(r1) =~= row_shape(r2));
    }
}

proof fn lemma_tab_shape(
    items: Seq<TreeSelectItem>,
    m1: Seq<bool>,
    m2: Seq<bool>,
    a: Seq<char>,
    w: usize,
    tabs: Seq<usize>,
    j: int,
    al: Seq<bool>,
    root: nat,
)
    ensures
        row_shape(tab_rows_from(items, m1, a, w, tabs, j, al, root)) == row_shape(
            tab_rows_from(items, m2, a, w, tabs, j, al, root),
        ),
    decreases tabs.len() - j,
{
    if 0 <= j < tabs.len() {
        lemma_tab_shape(items, m1, m2, a, w, tabs, j + 1, al, root);
        let last = j == tabs.len() - 1;
        let panes = panes_of(items, a, w, tabs[j]);
        lemma_pane_shape(items, m1, m2, panes, 0, al.push(last), root);
        let h1 = seq![branch_row(2, "Tab "@ + decimal(tabs[j] as nat), any_matched(m1, panes), root, al, last)];
        let h2 = seq![branch_row(2, "Tab "@ + decimal(tabs[j] as nat), any_matched(m2, panes), root, al, last)];
        let p1 = pane_rows_from(items, m1, panes, 0, al.push(last), root);
        let p2 = pane_rows_from(items, m2, panes, 0, al.push(last), root);
        let t1 = tab_rows_from(items, m1, a, w, tabs, j + 1, al, root);
        let t2 = tab_rows_from(items, m2, a, w, tabs, j + 1, al, root);
        lemma_shape_concat(h1 + p1, t1);
        lemma_shape_concat(h2 + p2, t2);
        lemma_shape_concat(h1, p1);
        lemma_shape_concat(h2, p2);
        assert(row_shape(h1) =~= row_shape(h2));
    }
}

proof fn lemma_window_shape(
    items: Seq<TreeSelectItem>,
    m1: Seq<bool>,
    m2: Seq<bool>,
    a: Seq<char>,
    windows: Seq<usize>,
    j: int,
    al: Seq<bool>,
    root: nat,
)
    ensures
        row_shape(window_rows_from(items, m1, a, windows, j, al, root)) == row_shape(
            window_rows_from(items, m2, a, windows, j, al, root),
        ),
    decreases windows.len() - j,
{
    if 0 <= j < windows.len() {
        lemma_window_shape(items, m1, m2, a, windows, j + 1, al, root);
        let last = j == windows.len() - 1;
        let w = windows[j];
        let idxs = members(items, in_group(a, Some(w), None), items.len() as int);
        lemma_tab_shape(items, m1, m2, a, w, tabs_of(items, a, w), 0, al.push(last), root);
        let h1 = seq![branch_row(1, "Window "@ + decimal(w as nat), any_matched(m1, idxs), root, al, last)];
        let h2 = seq![branch_row(1, "Window "@ + decimal(w as nat), any_matched(m2, idxs), root, al, last)];
        let p1 = tab_rows_from(items, m1, a, w, tabs_of(items, a, w), 0, al.push(last), root);
        let p2 = tab_rows_from(items, m2, a, w, tabs_of(items, a, w), 0, al.push(last), root);
        let t1 = window_rows_from(items, m1, a, windows, j + 1, al, root);
        let t2 = window_rows_from(items, m2, a, windows, j + 1, al, root);
        lemma_shape_concat(h1 + p1, t1);
        lemma_shape_concat(h2 + p2, t2);
        lemma_shape_concat(h1, p1);
        lemma_shape_concat(h2, p2);
        assert(row_shape(h1) =~= row_shape(h2));
    }
}

proof fn lemma_app_shape(
    items: Seq<TreeSelectItem>,
    m1: Seq<bool>,
    m2: Seq<bool>,
    apps: Seq<Seq<char>>,
    j: int,
    start: nat,
)
    ensures
        row_shape(app_rows_from(items, m1, apps, j, start)) == row_shape(app_rows_from(items, m2, apps, j, start)),
    decreases apps.len() - j,
{
    if 0 <= j < apps.len() {
        let a = apps[j];
        let last = j == apps.len() - 1;
        let idxs = members(items, in_group(a, None, None), items.len() as int);
        lemma_window_shape(items, m1, m2, a, windows_of(items, a), 0, seq![last], start);
        let h1 = seq![branch_row(0, items[idxs[0]].application@, any_matched(m1, idxs), start, Seq::empty(), last)];
        let h2 = seq![branch_row(0, items[idxs[0]].application@, any_matched(m2, idxs), start, Seq::empty(), last)];
        let w1 = window_rows_from(items, m1, a, windows_of(items, a), 0, seq![last], start);
        let w2 = window_rows_from(items, m2, a, windows_of(items, a), 0, seq![last], start);
        lemma_shape_concat(h1, w1);
        lemma_shape_concat(h2, w2);
        assert(row_shape(h1) =~= row_shape(h2));
        let b1 = app_block(items, m1, a, last, start);
        let b2 = app_block(items, m2, a, last, start);
        assert(b1.len() == row_shape(b1).len());
        assert(b2.len() == row_shape(b2).len());
        lemma_app_shape(items, m1, m2, apps, j + 1, start + b1.len());
        lemma_shape_concat(b1, app_rows_from(items, m1, apps, j + 1, start + b1.len()));
        lemma_shape_concat(b2, app_rows_from(items, m2, apps, j + 1, start + b2.len()));
    }
}

/// A query changes only which rows are marked as matching: whatever it
/// matches, the tree has the same rows in the same order, so panes that do
/// not match stay in view.
pub proof fn law_query_changes_only_the_marks(items: Seq<TreeSelectItem>, m1: Seq<bool>, m2: Seq<bool>)
    ensures
        row_shape(tree_rows(items, m1)) == row_shape(tree_rows(items, m2)),
        tree_rows(items, m1).len() == tree_rows(items, m2).len(),
{
    lemma_app_shape(items, m1, m2, apps_of(items), 0, 0);
    assert(tree_rows(items, m1).len() == row_shape(tree_rows(items, m1)).len());
    assert(tree_rows(items, m2).len() == row_shape(tree_rows(items, m2)).len());
}

proof fn lemma_position_of(s: Seq<usize>, x: int, from: int)
    requires
        0 <= from,
    ensures
        index_in(s, x, from) matches Some(p) ==> from <= p < s.len() && s[p] == x,
        (exists|j: int| from <= j < s.len() && s[j] == x) ==> index_in(s, x, from) is Some,
    decreases s.len() - from,
{
    if from < s.len() && s[from] != x {
        lemma_position_of(s, x, from + 1);
        if exists|j: int| from <= j < s.len() && s[j] == x {
            let j = choose|j: int| from <= j < s.len() && s[j] == x;
            assert(from + 1 <= j);
        }
    }
}

proof fn lemma_first_key_bounds(items: Seq<TreeSelectItem>, key: Seq<char>, from: int)
    ensures
        first_key(items, key, from) matches Some(i) ==> from <= i < items.len(),
    decreases items.len() - from,
{
    if 0 <= from < items.len() && items[from].key@ != key {
        lemma_first_key_bounds(items, key, from + 1);
    }
}

/// The first item with the remembered key, where it is a candidate.
pub open spec fn kept_item(items: Seq<TreeSelectItem>, candidates: Seq<usize>, key: Option<Seq<char>>) -> Option<int> {
    match key {
        Some(k) => match first_key(items, k, 0) {
            Some(i) => if exists|j: int| 0 <= j < candidates.len() && candidates[j] == i {
                Some(i)
            } else {
                None
            },
            None => None,
        },
        None => None,
    }
}

/// After the candidates are recomputed there is a selection exactly when
/// there are candidates, and it is one of them; it stays on the first item
/// with the remembered key where that item is still a candidate, and is
/// otherwise the first candidate. (The candidates are those of a vector,
/// so their positions fit in `usize`.)
pub proof fn law_reselection_keeps_the_key(
    items: Seq<TreeSelectItem>,
    candidates: Seq<usize>,
    key: Option<Seq<char>>,
)
    requires
        candidates.len() <= usize::MAX,
    ensures
        match reselect(items, candidates, key) {
            Some(p) => p < candidates.len(),
            None => candidates.len() == 0,
        },
        kept_item(items, candidates, key) matches Some(i) ==> (reselect(items, candidates, key) matches Some(
            p,
        ) && candidates[p as int] == i),
        kept_item(items, candidates, key) is None ==> reselect(items, candidates, key) == if candidates.len()
            > 0 {
            Some(0usize)
        } else {
            None
        },
{
    match key {
        Some(k) => {
            lemma_first_key_bounds(items, k, 0);
            match first_key(items, k, 0) {
                Some(i) => {
                    lemma_position_of(candidates, i, 0);
                },
                None => {},
            }
        },
        None => {},
    }
}

proof fn lemma_path_like_field(f: Seq<char>)
    requires
        lower(f) == "path"@ || lower(f) == "cwd"@,
    ensures
        forall|i: int| 0 <= i < f.len() ==> f[i] != ':' && crate::search::is_field_char(#[trigger] f[i]),
{
    reveal_strlit("path");
    reveal_strlit("cwd");
    assert forall|i: int| 0 <= i < f.len() implies f[i] != ':' && crate::search::is_field_char(#[trigger] f[i]) by {
        assert(lower(f)[i] == crate::text::lower_char(f[i]));
        assert(lower(f).len() == f.len());
        assert("path"@.len() == 4 && "cwd"@.len() == 3);
        if lower(f) == "path"@ {
            assert(i < 4);
            if i == 0 {} else if i == 1 {} else if i == 2 {} else {}
        } else {
            assert(i < 3);
            if i == 0 {} else if i == 1 {} else {}
        }
        assert('a' <= lower(f)[i] <= 'z');
    }
}

proof fn lemma_colon_after(f: Seq<char>, v: Seq<char>, i: int)
    requires
        0 <= i <= f.len(),
        forall|j: int| 0 <= j < f.len() ==> #[trigger] f[j] != ':',
    ensures
        crate::search::colon_from(f + seq![':'] + v, i) == Some(f.len() as int),
    decreases f.len() - i,
{
    let t = f + seq![':'] + v;
    if i < f.len() {
        assert(t[i] == f[i]);
        lemma_colon_after(f, v, i + 1);
    } else {
        assert(t[i] == ':');
    }
}

/// `path:` is another name for `cwd:`: a token whose field part is either
/// (in any ASCII case) with a value reads as a search of the working
/// directory for that value, and an item satisfies it exactly when its
/// working directory contains the value, ASCII case ignored.
pub proof fn law_path_and_cwd_search_the_working_directory(
    f: Seq<char>,
    v: Seq<char>,
    res: Result<QueryClause, String>,
    item: TreeSelectItem,
)
    requires
        lower(f) == "path"@ || lower(f) == "cwd"@,
        v.len() > 0,
        clause_of(f + seq![':'] + v, res),
    ensures
        res matches Ok(QueryClause::Text { field, value }) && field == Some(TextField::WorkingDirectory)
            && value@ == v,
        res is Ok ==> (clause_holds(item, res->Ok_0) <==> contains_ignoring_case(item.working_directory@, v)),
{
    let t = f + seq![':'] + v;
    lemma_path_like_field(f);
    lemma_colon_after(f, v, 0);
    assert(colon_index(t) == Some(f.len() as int));
    assert(t.subrange(0, f.len() as int) =~= f);
    assert(t.subrange(f.len() + 1int, t.len() as int) =~= v);
    assert(crate::search::is_field_name(f));
    reveal_strlit("path");
    reveal_strlit("cwd");
    reveal_strlit("app");
    reveal_strlit("name");
    assert(lower(f) != "app"@ && lower(f) != "name"@) by {
        if lower(f) == "path"@ {
            assert(lower(f)[0] == 'p');
        } else {
            assert(lower(f)[0] == 'c');
        }
    }
}

/// Unqualified terms search the pane's location too: an item whose
/// location `W<window>/T<tab>/P<pane>` contains the term, ASCII case
/// ignored, satisfies it, as it does where its application, name or
/// working directory contains it.
pub proof fn law_unqualified_terms_search_the_location(item: TreeSelectItem, value: Vec<char>)
    ensures
        contains_ignoring_case(
            location_text(item.window_index as nat, item.tab_index as nat, item.pane_index as nat),
            value@,
        ) ==> clause_holds(item, QueryClause::Text { field: None, value }),
        contains_ignoring_case(item.application@, value@) ==> clause_holds(item, QueryClause::Text { field: None, value }),
        contains_ignoring_case(item.name@, value@) ==> clause_holds(item, QueryClause::Text { field: None, value }),
        contains_ignoring_case(item.working_directory@, value@) ==> clause_holds(
            item,
            QueryClause::Text { field: None, value },
        ),
{
}

proof fn lemma_first_blocking(fields: Seq<InputField>, from: int)
    requires
        0 <= from,
    ensures
        first_blocking(fields, from) matches Some(k) ==> from <= k < fields.len() && fields[k].value_view() is None
            && !fields[k].allow_empty_view() && forall|j: int| from <= j < k ==> (#[trigger] fields[j]).value_view()
            is Some || fields[j].allow_empty_view(),
        (exists|j: int| from <= j < fields.len() && fields[j].value_view() is None && !fields[j].allow_empty_view())
            ==> first_blocking(fields, from) is Some,
    decreases fields.len() - from,
{
    if from < fields.len() {
        lemma_first_blocking(fields, from + 1);
        if exists|j: int| from <= j < fields.len() && fields[j].value_view() is None && !fields[j].allow_empty_view() {
            let j = choose|j: int| from <= j < fields.len() && fields[j].value_view() is None && !fields[j].allow_empty_view();
            if j > from {
                assert(from + 1 <= j);
            }
        }
    }
}

/// A submit refused because inputs are missing moves the focus to the
/// first of them: an input with no value that does not allow an empty one,
/// every input before it having a value or allowing none.
pub proof fn law_refused_submit_focuses_the_first_missing_input(before: InputScreen, after: InputScreen, res: ScreenAction)
    requires
        before.fields_view().len() <= usize::MAX,
        submitted(before, after, res),
        before.target_view().selected_view() is Some,
        before.workflow_view().selected_workflow() is Some,
        exists|j: int|
            0 <= j < before.fields_view().len() && (#[trigger] before.fields_view()[j]).value_view() is None
                && !before.fields_view()[j].allow_empty_view(),
    ensures
        res == ScreenAction::Redraw,
        after.focus_view() matches Focus::Field(k) && k < before.fields_view().len()
            && before.fields_view()[k as int].value_view() is None && !before.fields_view()[k as int].allow_empty_view()
            && forall|j: int| 0 <= j < k ==> (#[trigger] before.fields_view()[j]).value_view() is Some
            || before.fields_view()[j].allow_empty_view(),
{
    let fields = before.fields_view();
    lemma_first_blocking(fields, 0);
    let j = choose|j: int|
        0 <= j < fields.len() && (#[trigger] fields[j]).value_view() is None && !fields[j].allow_empty_view();
    assert(!can_submit(fields[j]));
    let k = first_blocking(fields, 0)->Some_0;
    assert(0 <= k < fields.len());
    assert((k as usize) as int == k);
}

/// Destinations are listed by application, then window, then tab, then
/// pane, then id: in any list sorted by the destination order, of two
/// destinations of the same application the earlier has no greater window
/// index, of two in the same window no greater tab index, of two in the
/// same tab no greater pane index, and of two in the same pane place an id
/// no later in code-point order.
pub proof fn law_destinations_are_ordered_by_window_tab_pane(s: Seq<TerminalTarget>, i: int, j: int)
    requires
        sorted_by(s, |a: TerminalTarget, b: TerminalTarget| target_le(a, b)),
        0 <= i < j < s.len(),
    ensures
        crate::cli::app_rank(s[i].application) <= crate::cli::app_rank(s[j].application),
        s[i].application == s[j].application ==> s[i].terminal.window_index <= s[j].terminal.window_index,
        s[i].application == s[j].application && s[i].terminal.window_index == s[j].terminal.window_index
            ==> s[i].terminal.tab_index <= s[j].terminal.tab_index,
        s[i].application == s[j].application && s[i].terminal.window_index == s[j].terminal.window_index
            && s[i].terminal.tab_index == s[j].terminal.tab_index ==> s[i].terminal.terminal_index
            <= s[j].terminal.terminal_index,
        s[i].application == s[j].application && s[i].terminal.window_index == s[j].terminal.window_index
            && s[i].terminal.tab_index == s[j].terminal.tab_index && s[i].terminal.terminal_index
            == s[j].terminal.terminal_index ==> crate::sort::text_le(s[i].terminal.id@, s[j].terminal.id@),
{
    let leq = |a: TerminalTarget, b: TerminalTarget| target_le(a, b);
    assert(leq(s[i], s[j]));
}

/// Moving through the destinations steps by one and stops at either end:
/// a move back from position `p` goes to `p - 1`, a move on to `p + 1`;
/// at the first candidate a move back, and at the last a move on, changes
/// nothing and says so.
pub proof fn law_moving_through_destinations_steps_by_one(
    before: TreeSelect,
    after: TreeSelect,
    direction: NavigationDirection,
    res: bool,
)
    requires
        navigated(before, after, direction),
        res == moved(before.selected_view(), before.candidates_view().len(), direction) is Some,
    ensures
        match before.selected_view() {
            Some(p) => if res {
                match direction {
                    NavigationDirection::Previous => p > 0 && after.selected_view() == Some((p - 1) as usize),
                    NavigationDirection::Next => p + 1 < before.candidates_view().len() && after.selected_view()
                        == Some((p + 1) as usize),
                }
            } else {
                &&& after.selected_view() == before.selected_view()
                &&& direction == NavigationDirection::Previous ==> p == 0
                &&& direction == NavigationDirection::Next ==> p + 1 >= before.candidates_view().len()
            },
            None => !res && after.selected_view() is None,
        },
{
}

/// Each field name selects the field it names: `app`, `name` and `id` (in
/// any ASCII case) with a value search the application, the pane name and
/// the id for it; `w`/`window`, `t`/`tab` and `p`/`pane` with a positive
/// integer select the window, tab and pane index, and with anything else
/// are rejected.
pub proof fn law_search_fields_select_what_they_name(f: Seq<char>, v: Seq<char>, res: Result<QueryClause, String>)
    requires
        crate::search::is_field_name(f),
        v.len() > 0,
        clause_of(f + seq![':'] + v, res),
    ensures
        lower(f) == "app"@ ==> (res matches Ok(QueryClause::Text { field, value }) && field == Some(
            TextField::Application,
        ) && value@ == v),
        lower(f) == "name"@ ==> (res matches Ok(QueryClause::Text { field, value }) && field == Some(TextField::Name)
            && value@ == v),
        lower(f) == "id"@ ==> (res matches Ok(QueryClause::Text { field, value }) && field == Some(TextField::Id)
            && value@ == v),
        lower(f) == "w"@ || lower(f) == "window"@ ==> match parse_usize_spec(v) {
            Some(n) if n > 0 => (res matches Ok(QueryClause::Number { field, value }) && field == NumberField::Window
                && value == n),
            _ => res is Err,
        },
        lower(f) == "t"@ || lower(f) == "tab"@ ==> match parse_usize_spec(v) {
            Some(n) if n > 0 => (res matches Ok(QueryClause::Number { field, value }) && field == NumberField::Tab
                && value == n),
            _ => res is Err,
        },
        lower(f) == "p"@ || lower(f) == "pane"@ ==> match parse_usize_spec(v) {
            Some(n) if n > 0 => (res matches Ok(QueryClause::Number { field, value }) && field == NumberField::Pane
                && value == n),
            _ => res is Err,
        },
{
    let t = f + seq![':'] + v;
    assert forall|j: int| 0 <= j < f.len() implies #[trigger] f[j] != ':' by {
        assert(crate::search::is_field_char(f[j]));
    }
    lemma_colon_after(f, v, 0);
    assert(t.subrange(0, f.len() as int) =~= f);
    assert(t.subrange(f.len() + 1int, t.len() as int) =~= v);
    reveal_strlit("app");
    reveal_strlit("name");
    reveal_strlit("cwd");
    reveal_strlit("path");
    reveal_strlit("id");
    reveal_strlit("window");
    reveal_strlit("w");
    reveal_strlit("tab");
    reveal_strlit("t");
    reveal_strlit("pane");
    reveal_strlit("p");
    let g = lower(f);
    if g == "app"@ {
        assert(g[0] == 'a');
    } else if g == "name"@ {
        assert(g[0] == 'n');
    } else if g == "id"@ {
        assert(g[0] == 'i');
    } else if g == "w"@ || g == "window"@ {
        assert(g[0] == 'w');
    } else if g == "t"@ || g == "tab"@ {
        assert(g[0] == 't');
    } else if g == "p"@ || g == "pane"@ {
        assert(g[0] == 'p');
        assert(g.len() == 1 || g[2] == 'n');
    }
}

/// A qualified clause searches only the field it names, ASCII case
/// ignored, and an index clause holds exactly where that index equals its
/// value.
pub proof fn law_clauses_hold_by_their_field(item: TreeSelectItem, value: Vec<char>, n: usize)
    ensures
        clause_holds(item, QueryClause::Text { field: Some(TextField::Application), value })
            <==> contains_ignoring_case(item.application@, value@),
        clause_holds(item, QueryClause::Text { field: Some(TextField::Name), value })
            <==> contains_ignoring_case(item.name@, value@),
        clause_holds(item, QueryClause::Text { field: Some(TextField::WorkingDirectory), value })
            <==> contains_ignoring_case(item.working_directory@, value@),
        clause_holds(item, QueryClause::Text { field: Some(TextField::Id), value })
            <==> contains_ignoring_case(item.id@, value@),
        clause_holds(item, QueryClause::Number { field: NumberField::Window, value: n }) <==> item.window_index == n,
        clause_holds(item, QueryClause::Number { field: NumberField::Tab, value: n }) <==> item.tab_index == n,
        clause_holds(item, QueryClause::Number { field: NumberField::Pane, value: n }) <==> item.pane_index == n,
{
}

/// Moving the focus forward and then back, or back and then forward,
/// returns it to where it was, and it always names something there is.
pub proof fn law_focus_round_trip(f: Focus, n: nat)
    requires
        valid_focus(f, n),
        n <= usize::MAX,
    ensures
        valid_focus(next_focus(f, n), n),
        valid_focus(previous_focus(f, n), n),
        previous_focus(next_focus(f, n), n) == f,
        next_focus(previous_focus(f, n), n) == f,
{
    match f {
        Focus::Field(i) => {
            if i + 1 < n {
                assert(((i + 1) as usize) as int == i + 1);
                assert((((i + 1) as usize) - 1) as usize == i);
            } else {
                assert((n - 1) as usize == i);
            }
            if i > 0 {
                assert(((i - 1) as usize) as int == i - 1);
                assert((((i - 1) as usize) + 1) as usize == i);
            }
        },
        Focus::Target => {
            if n > 0 {
                assert(((n - 1) as usize) as int == n - 1);
            }
        },
        Focus::Workflow => {},
    }
}

/// A compacted value takes at most the display limit and the ellipsis,
/// and a value whose one-line form fits is shown whole.
pub proof fn law_compact_fits(value: Seq<char>)
    ensures
        compact_text(value).len() <= COMPACT_LIMIT + 1,
        0 < expand_newlines(trim(value)).len() <= COMPACT_LIMIT ==> compact_text(value)
            == expand_newlines(trim(value)),
{
}

proof fn lemma_count_eq_last<A>(s: Seq<A>)
    requires
        s.len() > 0,
    ensures
        count_eq(s, s.last()) >= 1,
{
}

proof fn lemma_count_first_last<A, B>(s: Seq<(A, B)>)
    requires
        s.len() > 0,
    ensures
        count_first(s, s.last().0) >= 1,
{
}

/// Every pane read from a tmux listing has one-based window, tab and
/// terminal indices.
pub proof fn law_tmux_indices_are_one_based(lines: Seq<Seq<char>>, i: int, t: Terminal)
    requires
        0 <= i < lines.len(),
        describes_pane(lines, i, t),
    ensures
        t.window_index >= 1,
        t.tab_index >= 1,
        t.terminal_index >= 1,
{
    let line = lines[i];
    let seen = lines.take(i + 1);
    let windows = crate::order::distinct_order(windows_seen(seen));
    let k = choose|k: int|
        0 <= k < windows.len() && windows[k] == window_key(line) && t.tab_index == count_first(
            #[trigger] windows.take(k + 1),
            fields_of(line)[0],
        );
    assert(windows.take(k + 1).last() == window_key(line));
    lemma_count_first_last(windows.take(k + 1));
    assert(windows_seen(seen).last() == window_key(line));
    lemma_count_eq_last(windows_seen(seen));
}

/// A template sees every saved value as it is, and every input that may
/// stay empty and has no value as the empty text.
pub proof fn law_unset_optional_inputs_render_empty(
    defs: Seq<InputDefinition>,
    values: Map<Seq<char>, Seq<char>>,
    i: int,
    k: Seq<char>,
)
    requires
        0 <= i < defs.len(),
        defs[i].allow_empty,
        !values.dom().contains(defs[i].name@),
    ensures
        render_inputs(defs, values).dom().contains(defs[i].name@),
        render_inputs(defs, values)[defs[i].name@] == Seq::<char>::empty(),
        values.dom().contains(k) ==> render_inputs(defs, values).dom().contains(k) && render_inputs(
            defs,
            values,
        )[k] == values[k],
{
}

proof fn lemma_names_grow(fields: Seq<InputField>, changed: Seq<char>, m: int, n: int)
    requires
        0 <= m <= n <= fields.len(),
    ensures
        invalidated_names(fields, changed, m).len() <= invalidated_names(fields, changed, n).len(),
        forall|p: int|
            0 <= p < invalidated_names(fields, changed, m).len() ==> invalidated_names(fields, changed, n)[p]
                == #[trigger] invalidated_names(fields, changed, m)[p],
    decreases n - m,
{
    if m < n {
        lemma_names_grow(fields, changed, m, n - 1);
    }
}

/// An input that waits for the changed input, or for an input that the
/// change invalidates and that comes before it, is invalidated too.
pub proof fn law_invalidation_spreads(fields: Seq<InputField>, changed: Seq<char>, j: int, k: int)
    requires
        0 <= j < fields.len(),
        -1 <= k < j,
        k >= 0 ==> invalidated(fields, changed, k),
        fields[j].dependencies().contains(if k >= 0 {
            fields[k].name_view()
        } else {
            changed
        }),
    ensures
        invalidated(fields, changed, j),
{
    if k >= 0 {
        lemma_names_grow(fields, changed, k + 1, j);
        let before = invalidated_names(fields, changed, k);
        assert(waits_for_any(fields[k], before));
        let names = invalidated_names(fields, changed, k + 1);
        assert(names == before.push(fields[k].name_view()));
        assert(names[before.len() as int] == fields[k].name_view());
        assert(invalidated_names(fields, changed, j)[before.len() as int] == fields[k].name_view());
        assert(waits_for_any(fields[j], invalidated_names(fields, changed, j)));
    } else {
        lemma_names_grow(fields, changed, 0, j);
        assert(invalidated_names(fields, changed, 0)[0] == changed);
        assert(invalidated_names(fields, changed, j)[0] == changed);
        assert(waits_for_any(fields[j], invalidated_names(fields, changed, j)));
    }
}

proof fn lemma_members(items: Seq<TreeSelectItem>, p: spec_fn(TreeSelectItem) -> bool, n: int)
    requires
        0 <= n <= items.len(),
    ensures
        forall|k: int|
            0 <= k < members(items, p, n).len() ==> 0 <= #[trigger] members(items, p, n)[k] < n && p(
                items[members(items, p, n)[k]],
            ),
        forall|i: int| 0 <= i < n && p(items[i]) ==> members(items, p, n).contains(i),
        forall|a: int, b: int|
            0 <= a < b < members(items, p, n).len() ==> members(items, p, n)[a] < members(items, p, n)[b],
    decreases n,
{
    if n > 0 {
        lemma_members(items, p, n - 1);
        let r = members(items, p, n - 1);
        if p(items[n - 1]) {
            assert(members(items, p, n) == r.push(n - 1));
            assert(members(items, p, n)[r.len() as int] == n - 1);
            assert forall|i: int| 0 <= i < n && p(items[i]) implies members(items, p, n).contains(i) by {
                if i < n - 1 {
                    assert(r.contains(i));
                    let w = choose|w: int| 0 <= w < r.len() && r[w] == i;
                    assert(members(items, p, n)[w] == i);
                }
            }
        }
    }
}

/// The candidates are exactly the items that satisfy every clause of the
/// query, in item order.
pub proof fn law_candidates_match_every_clause(items: Seq<TreeSelectItem>, clauses: Vec<QueryClause>)
    ensures
        forall|k: int|
            0 <= k < candidates_for(items, Ok(clauses)).len() ==> item_matches(
                items[#[trigger] candidates_for(items, Ok(clauses))[k]],
                clauses@,
            ),
        forall|i: int|
            0 <= i < items.len() && item_matches(items[i], clauses@) ==> candidates_for(
                items,
                Ok(clauses),
            ).contains(i),
        forall|a: int, b: int|
            0 <= a < b < candidates_for(items, Ok(clauses)).len() ==> candidates_for(items, Ok(clauses))[a]
                < candidates_for(items, Ok(clauses))[b],
{
    lemma_members(items, passes(Ok(clauses)), items.len() as int);
}

/// A query that cannot be read has no candidates.
pub proof fn law_invalid_query_has_no_candidates(items: Seq<TreeSelectItem>, error: String)
    ensures
        candidates_for(items, Err(error)).len() == 0,
{
    lemma_members(items, passes(Err(error)), items.len() as int);
    if candidates_for(items, Err(error)).len() > 0 {
        assert(passes(Err::<Vec<QueryClause>, String>(error))(items[candidates_for(items, Err(error))[0]]));
    }
}

/// Submitting hands the form over only where a destination and a
/// workflow are saved and every input has a value or may stay empty.
pub proof fn law_submit_needs_a_complete_form(s: InputScreen)
    ensures
        submit_outcome(s).1 == ScreenAction::Submit ==> {
            &&& s.target_view().selected_view() is Some
            &&& s.workflow_view().selected_workflow() is Some
            &&& forall|k: int| 0 <= k < s.fields_view().len() ==> can_submit(#[trigger] s.fields_view()[k])
        },
{
}

/// Only Ctrl+S submits, and the form it submits has a destination, a
/// workflow, and a value in every input that may not stay empty: no key
/// hands over a form with a decision missing.
pub proof fn law_only_a_complete_form_is_submitted(
    before: InputScreen,
    after: InputScreen,
    key: Key,
    textarea_moved: bool,
    loaded: Option<Result<Workflow, String>>,
)
    requires
        key_handled(before, after, key, textarea_moved, loaded, KeyOutcome::Submit),
    ensures
        key == Key::Control('s'),
        after.target_view().selected_view() is Some,
        after.workflow_view().selected_workflow() is Some,
        forall|k: int| 0 <= k < after.fields_view().len() ==> can_submit(#[trigger] after.fields_view()[k]),
{
    let action = choose|action: ScreenAction|
        #[trigger] saved_and_submitted(before, after, action, loaded) && KeyOutcome::Submit == if action
            == ScreenAction::Submit {
            KeyOutcome::Submit
        } else {
            KeyOutcome::Redraw
        };
    assert(action == ScreenAction::Submit);
    let (shown, mid, saved) = choose|shown: InputScreen, mid: InputScreen, saved: bool|
        #[trigger] crate::screen::errors_shown(before, shown) && #[trigger] crate::screen::focused_saved(
            shown,
            mid,
            saved,
            loaded,
        ) && if saved {
            submitted(mid, after, action)
        } else {
            crate::screen::same_screen(mid, after) && action == ScreenAction::Redraw
        };
    assert(submitted(mid, after, action));
    assert(submit_outcome(mid).1 == ScreenAction::Submit);
    assert forall|k: int| 0 <= k < after.fields_view().len() implies can_submit(#[trigger] after.fields_view()[k]) by {
        assert(after.fields_view()[k] == mid.fields_view()[k]);
    }
}

/// The saved values hold, by name, the value of each input that has one,
/// and nothing for an input without one.
pub proof fn law_saved_values_are_the_values_set(fields: Seq<InputField>, n: int, name: Seq<char>)
    requires
        0 <= n <= fields.len(),
        forall|a: int, b: int|
            0 <= a < b < fields.len() ==> #[trigger] fields[a].name_view() != #[trigger] fields[b].name_view(),
    ensures
        saved_map(fields, n).dom().contains(name) <==> exists|i: int|
            0 <= i < n && fields[i].name_view() == name && #[trigger] fields[i].value_view() is Some,
        forall|i: int|
            0 <= i < n && fields[i].name_view() == name && #[trigger] fields[i].value_view() is Some
                ==> saved_map(fields, n)[name] == fields[i].value_view().unwrap(),
    decreases n,
{
    if n > 0 {
        law_saved_values_are_the_values_set(fields, n - 1, name);
        let f = fields[n - 1];
        if f.name_view() == name && f.value_view() is Some {
            assert(saved_map(fields, n).dom().contains(name));
        } else if exists|i: int| 0 <= i < n && fields[i].name_view() == name && #[trigger] fields[i].value_view() is Some {
            let i = choose|i: int| 0 <= i < n && fields[i].name_view() == name && #[trigger] fields[i].value_view() is Some;
            assert(i < n - 1);
        }
    }
}


/// Every suggestion of a select starts with the query, and every item
/// whose label starts with it is suggested, in item order.
pub proof fn law_suggestions_start_with_the_query<T>(items: Seq<SelectItem<T>>, query: Seq<char>, n: int)
    requires
        0 <= n <= items.len(),
        items.len() <= usize::MAX,
    ensures
        forall|k: int|
            0 <= k < matching_upto(items, query, n).len() ==> 0 <= #[trigger] matching_upto(items, query, n)[k]
                < n && is_prefix(query, items[matching_upto(items, query, n)[k] as int].label@),
        forall|i: int|
            0 <= i < n && is_prefix(query, items[i].label@) ==> matching_upto(items, query, n).contains(
                i as usize,
            ),
        forall|a: int, b: int|
            0 <= a < b < matching_upto(items, query, n).len() ==> #[trigger] matching_upto(items, query, n)[a]
                < #[trigger] matching_upto(items, query, n)[b],
    decreases n,
{
    if n > 0 {
        law_suggestions_start_with_the_query(items, query, n - 1);
        let r = matching_upto(items, query, n - 1);
        if is_prefix(query, items[n - 1].label@) {
            assert(matching_upto(items, query, n) == r.push((n - 1) as usize));
            assert(((n - 1) as usize) as int == n - 1);
            assert(matching_upto(items, query, n)[r.len() as int] == (n - 1) as usize);
            assert forall|k: int| 0 <= k < r.len() implies #[trigger] matching_upto(items, query, n)[k]
                == r[k] by {}
            assert forall|i: int| 0 <= i < n && is_prefix(query, items[i].label@) implies matching_upto(
                items,
                query,
                n,
            ).contains(i as usize) by {
                if i < n - 1 {
                    assert(r.contains(i as usize));
                    let w = choose|w: int| 0 <= w < r.len() && r[w] == i as usize;
                    assert(matching_upto(items, query, n)[w] == i as usize);
                }
            }
        }
    }
}

/// The candidates read from a command's output are its non-blank lines,
/// trimmed; none is empty.
pub proof fn law_candidates_are_not_empty(lines: Seq<Seq<char>>)
    ensures
        forall|k: int| 0 <= k < candidate_lines(lines).len() ==> #[trigger] candidate_lines(lines)[k].len() > 0,
        candidate_lines(lines).len() <= lines.len(),
    decreases lines.len(),
{
    if lines.len() > 0 {
        law_candidates_are_not_empty(lines.drop_last());
        let rest = candidate_lines(lines.drop_last());
        if trim(lines.last()).len() != 0 {
            assert(candidate_lines(lines)[rest.len() as int] == trim(lines.last()));
        }
    }
}

/// Row `r` of `rows` shows pane `i`, and can be chosen exactly when the
/// pane matched.
pub open spec fn shows_pane(rows: Seq<RowView>, matches: Seq<bool>, i: int) -> bool {
    exists|r: int|
        0 <= r < rows.len() && (#[trigger] rows[r]).item_index == Some(i as nat) && rows[r].selectable == matches[i]
}

proof fn lemma_shows_in_either(a: Seq<RowView>, b: Seq<RowView>, matches: Seq<bool>, i: int)
    ensures
        shows_pane(a, matches, i) || shows_pane(b, matches, i) ==> shows_pane(a + b, matches, i),
{
    if shows_pane(a, matches, i) {
        let r = choose|r: int|
            0 <= r < a.len() && (#[trigger] a[r]).item_index == Some(i as nat) && a[r].selectable == matches[i];
        assert((a + b)[r] == a[r]);
    } else if shows_pane(b, matches, i) {
        let r = choose|r: int|
            0 <= r < b.len() && (#[trigger] b[r]).item_index == Some(i as nat) && b[r].selectable == matches[i];
        assert((a + b)[a.len() + r] == b[r]);
    }
}

proof fn lemma_distinct_order_keeps<A>(s: Seq<A>, x: A)
    requires
        s.contains(x),
    ensures
        distinct_order(s).contains(x),
    decreases s.len(),
{
    let d = distinct_order(s.drop_last());
    if s.last() != x {
        let k = choose|k: int| 0 <= k < s.len() && s[k] == x;
        assert(s.drop_last()[k] == x);
        lemma_distinct_order_keeps(s.drop_last(), x);
        if !d.contains(s.last()) {
            let m = choose|m: int| 0 <= m < d.len() && d[m] == x;
            assert(d.push(s.last())[m] == x);
        }
    } else if !d.contains(s.last()) {
        assert(d.push(s.last())[d.len() as int] == x);
    }
}

proof fn lemma_pane_rows_show(
    items: Seq<TreeSelectItem>,
    matches: Seq<bool>,
    panes: Seq<int>,
    j: int,
    ancestor_last: Seq<bool>,
    root: nat,
    k: int,
)
    requires
        0 <= j <= k < panes.len(),
    ensures
        shows_pane(pane_rows_from(items, matches, panes, j, ancestor_last, root), matches, panes[k]),
    decreases k - j,
{
    let first = seq![pane_row(items, matches, panes[j], root, ancestor_last, j == panes.len() - 1)];
    let rest = pane_rows_from(items, matches, panes, j + 1, ancestor_last, root);
    assert(pane_rows_from(items, matches, panes, j, ancestor_last, root) == first + rest);
    if j == k {
        assert(first[0].item_index == Some(panes[k] as nat));
    } else {
        lemma_pane_rows_show(items, matches, panes, j + 1, ancestor_last, root, k);
    }
    lemma_shows_in_either(first, rest, matches, panes[k]);
}

proof fn lemma_tab_rows_show(
    items: Seq<TreeSelectItem>,
    matches: Seq<bool>,
    a: Seq<char>,
    w: usize,
    tabs: Seq<usize>,
    j: int,
    ancestor_last: Seq<bool>,
    root: nat,
    k: int,
    i: int,
)
    requires
        0 <= j <= k < tabs.len(),
        panes_of(items, a, w, tabs[k]).contains(i),
    ensures
        shows_pane(tab_rows_from(items, matches, a, w, tabs, j, ancestor_last, root), matches, i),
    decreases k - j,
{
    let last = j == tabs.len() - 1;
    let panes = panes_of(items, a, w, tabs[j]);
    let head = seq![branch_row(2, "Tab "@ + crate::text::decimal(tabs[j] as nat), any_matched(matches, panes), root, ancestor_last, last)];
    let pane_rows = pane_rows_from(items, matches, panes, 0, ancestor_last.push(last), root);
    let rest = tab_rows_from(items, matches, a, w, tabs, j + 1, ancestor_last, root);
    assert(tab_rows_from(items, matches, a, w, tabs, j, ancestor_last, root) == head + pane_rows + rest);
    if j == k {
        let m = choose|m: int| 0 <= m < panes.len() && panes[m] == i;
        lemma_pane_rows_show(items, matches, panes, 0, ancestor_last.push(last), root, m);
        lemma_shows_in_either(head, pane_rows, matches, i);
    } else {
        lemma_tab_rows_show(items, matches, a, w, tabs, j + 1, ancestor_last, root, k, i);
    }
    lemma_shows_in_either(head + pane_rows, rest, matches, i);
}

proof fn lemma_window_rows_show(
    items: Seq<TreeSelectItem>,
    matches: Seq<bool>,
    a: Seq<char>,
    windows: Seq<usize>,
    j: int,
    ancestor_last: Seq<bool>,
    root: nat,
    k: int,
    i: int,
)
    requires
        0 <= j <= k < windows.len(),
        0 <= i < items.len(),
        in_group(a, Some(windows[k]), None)(items[i]),
    ensures
        shows_pane(window_rows_from(items, matches, a, windows, j, ancestor_last, root), matches, i),
    decreases k - j,
{
    let last = j == windows.len() - 1;
    let w = windows[j];
    let head = seq![
        branch_row(
            1,
            "Window "@ + crate::text::decimal(w as nat),
            any_matched(matches, members(items, in_group(a, Some(w), None), items.len() as int)),
            root,
            ancestor_last,
            last,
        ),
    ];
    let tabs = tabs_of(items, a, w);
    let tab_rows = tab_rows_from(items, matches, a, w, tabs, 0, ancestor_last.push(last), root);
    let rest = window_rows_from(items, matches, a, windows, j + 1, ancestor_last, root);
    assert(window_rows_from(items, matches, a, windows, j, ancestor_last, root) == head + tab_rows + rest);
    if j == k {
        let t = items[i].tab_index;
        let in_window = members(items, in_group(a, Some(w), None), items.len() as int);
        lemma_members(items, in_group(a, Some(w), None), items.len() as int);
        assert(in_window.contains(i));
        let p = choose|p: int| 0 <= p < in_window.len() && in_window[p] == i;
        let tab_list = in_window.map_values(|x: int| items[x].tab_index);
        assert(tab_list[p] == t);
        lemma_distinct_order_keeps(tab_list, t);
        let q = choose|q: int| 0 <= q < tabs.len() && tabs[q] == t;
        lemma_members(items, in_group(a, Some(w), Some(t)), items.len() as int);
        assert(in_group(a, Some(w), Some(t))(items[i]));
        assert(panes_of(items, a, w, tabs[q]).contains(i));
        lemma_tab_rows_show(items, matches, a, w, tabs, 0, ancestor_last.push(last), root, q, i);
        lemma_shows_in_either(head, tab_rows, matches, i);
    } else {
        lemma_window_rows_show(items, matches, a, windows, j + 1, ancestor_last, root, k, i);
    }
    lemma_shows_in_either(head + tab_rows, rest, matches, i);
}

proof fn lemma_app_rows_show(
    items: Seq<TreeSelectItem>,
    matches: Seq<bool>,
    apps: Seq<Seq<char>>,
    j: int,
    start: nat,
    k: int,
    i: int,
)
    requires
        0 <= j <= k < apps.len(),
        0 <= i < items.len(),
        app_key(items[i]) == apps[k],
    ensures
        shows_pane(app_rows_from(items, matches, apps, j, start), matches, i),
    decreases k - j,
{
    let a = apps[j];
    let block = app_block(items, matches, a, j == apps.len() - 1, start);
    let rest = app_rows_from(items, matches, apps, j + 1, start + block.len());
    assert(app_rows_from(items, matches, apps, j, start) == block + rest);
    if j == k {
        let idxs = members(items, in_group(a, None, None), items.len() as int);
        let last = j == apps.len() - 1;
        let head = seq![branch_row(0, items[idxs[0]].application@, any_matched(matches, idxs), start, Seq::empty(), last)];
        let windows = windows_of(items, a);
        let window_rows = window_rows_from(items, matches, a, windows, 0, seq![last], start);
        assert(block == head + window_rows);
        lemma_members(items, in_group(a, None, None), items.len() as int);
        assert(in_group(a, None, None)(items[i]));
        assert(idxs.contains(i));
        let p = choose|p: int| 0 <= p < idxs.len() && idxs[p] == i;
        let window_list = idxs.map_values(|x: int| items[x].window_index);
        assert(window_list[p] == items[i].window_index);
        lemma_distinct_order_keeps(window_list, items[i].window_index);
        let q = choose|q: int| 0 <= q < windows.len() && windows[q] == items[i].window_index;
        assert(in_group(a, Some(windows[q]), None)(items[i]));
        lemma_window_rows_show(items, matches, a, windows, 0, seq![last], start, q, i);
        lemma_shows_in_either(head, window_rows, matches, i);
    } else {
        lemma_app_rows_show(items, matches, apps, j + 1, start + block.len(), k, i);
    }
    lemma_shows_in_either(block, rest, matches, i);
}

/// Every pane stays in the tree whether or not it matched the query,
/// under its application, window and tab, and its row can be chosen
/// exactly when it matched.
pub proof fn law_every_pane_is_shown(items: Seq<TreeSelectItem>, matches: Seq<bool>, i: int)
    requires
        0 <= i < items.len(),
    ensures
        shows_pane(tree_rows(items, matches), matches, i),
{
    let keys = items.map_values(|it: TreeSelectItem| app_key(it));
    assert(keys[i] == app_key(items[i]));
    lemma_distinct_order_keeps(keys, app_key(items[i]));
    let apps = apps_of(items);
    let k = choose|k: int| 0 <= k < apps.len() && apps[k] == app_key(items[i]);
    lemma_app_rows_show(items, matches, apps, 0, 0, k, i);
}

/// The selection of a select cannot move further in `direction`.
pub open spec fn at_end<T>(s: crate::select::Select<T>, direction: NavigationDirection) -> bool {
    match (direction, s.selected_position()) {
        (NavigationDirection::Previous, Some(p)) => p == 0,
        (NavigationDirection::Next, Some(p)) => p + 1 >= s.suggestions().len(),
        (_, None) => true,
    }
}

/// The focus one step in `direction` among `n` inputs.
pub open spec fn step(f: Focus, direction: NavigationDirection, n: nat) -> Focus {
    match direction {
        NavigationDirection::Previous => previous_focus(f, n),
        NavigationDirection::Next => next_focus(f, n),
    }
}

/// Moving on from an input never waits for its value, required or not:
/// where its own control cannot move further (a textarea's last or first
/// line, a select's last or first candidate), the focus goes to the next
/// or previous section, unless candidates are still loading.
pub proof fn law_required_inputs_do_not_block_navigation(
    before: InputScreen,
    after: InputScreen,
    direction: NavigationDirection,
    loaded: Option<Result<Workflow, String>>,
    i: usize,
)
    requires
        before.focus_view() == Focus::Field(i),
        i < before.fields_view().len(),
        navigated_screen(before, after, direction, false, loaded),
        !(before.fields_view()[i as int].load_state_view() matches Some(LoadState::Loading)),
        match before.fields_view()[i as int].control_view() {
            FieldControl::Select(c) => at_end(c.select, direction),
            FieldControl::Textarea(_) => true,
        },
    ensures
        after.focus_view() == step(Focus::Field(i), direction, before.fields_view().len()),
{
    let (mid, within) = choose|mid: InputScreen, within: bool|
        #[trigger] moved_within(before, mid, direction, false, within) && if within {
            crate::screen::same_screen(mid, after)
        } else {
            exists|saved_state: InputScreen, saved: bool|
                #[trigger] focused_saved(mid, saved_state, saved, loaded) && focus_moved(
                    saved_state,
                    after,
                    direction,
                    saved,
                )
        };
    let f = before.fields_view()[i as int];
    let g = mid.fields_view()[i as int];
    assert(!within);
    let (saved_state, saved) = choose|saved_state: InputScreen, saved: bool|
        #[trigger] focused_saved(mid, saved_state, saved, loaded) && focus_moved(saved_state, after, direction, saved);
    assert(g.draft_view() is Some);
    assert(saved);
    assert(saved_state.fields_view().len() == mid.fields_view().len());
}

/// Delivery types the text and then presses Enter, and presses Enter only
/// where the text arrived: it ends after at most these two steps, with the
/// outcome of the last step taken, and stays ended.
pub proof fn law_enter_only_after_the_text_arrived(text: Result<(), String>, enter: Result<(), String>)
    ensures
        next_step(Delivery::SendText, text) is SendEnter <==> text is Ok,
        text is Err ==> next_step(Delivery::SendText, text) == Delivery::Done(text),
        text is Ok ==> next_step(next_step(Delivery::SendText, text), enter) == Delivery::Done(enter),
        forall|r: Result<(), String>, o: Result<(), String>|
            #[trigger] next_step(Delivery::Done(r), o) == Delivery::Done(r),
{
}

/// A candidate command that succeeds with UTF-8 output offers its
/// non-blank output lines, trimmed, as candidates, none of them empty; any
/// other run leaves a message to show instead.
pub proof fn law_command_output_becomes_candidates(
    program: Seq<char>,
    run: CommandRun,
    result: Result<String, String>,
    values: Result<Vec<String>, String>,
)
    requires
        match (result, run_outcome(program, run)) {
            (Ok(out), Ok(expected)) => out@ == expected,
            (Err(e), Err(expected)) => e@ == expected,
            _ => false,
        },
        outcome_candidates(result, values),
    ensures
        match run {
            CommandRun::Exited { success, stdout, .. } => if success && valid_utf8(stdout@) {
                &&& values matches Ok(vs)
                &&& string_views(vs@) == candidate_lines(lines_of(decode_utf8(stdout@)))
                &&& forall|k: int| 0 <= k < vs@.len() ==> #[trigger] vs@[k]@.len() > 0
            } else {
                values is Err
            },
            CommandRun::NotStarted(_) => values is Err,
        },
{
    if let Ok(vs) = values {
        law_candidates_are_not_empty(lines_of(decode_utf8(stdout_of(run))));
        assert forall|k: int| 0 <= k < vs@.len() implies #[trigger] vs@[k]@.len() > 0 by {
            assert(string_views(vs@)[k] == vs@[k]@);
        }
    }
}

spec fn stdout_of(run: CommandRun) -> Seq<u8> {
    match run {
        CommandRun::Exited { stdout, .. } => stdout@,
        CommandRun::NotStarted(_) => Seq::empty(),
    }
}

/// How many of `rows` show pane `i`.
pub open spec fn rows_showing(rows: Seq<RowView>, i: int) -> nat
    decreases rows.len(),
{
    if rows.len() == 0 {
        0
    } else {
        rows_showing(rows.drop_last(), i) + if rows.last().item_index == Some(i as nat) {
            1nat
        } else {
            0nat
        }
    }
}

proof fn lemma_rows_showing_concat(a: Seq<RowView>, b: Seq<RowView>, i: int)
    ensures
        rows_showing(a + b, i) == rows_showing(a, i) + rows_showing(b, i),
    decreases b.len(),
{
    if b.len() == 0 {
        assert(a + b =~= a);
    } else {
        lemma_rows_showing_concat(a, b.drop_last(), i);
        assert((a + b).drop_last() =~= a + b.drop_last());
    }
}

proof fn lemma_one_row(r: RowView, i: int)
    ensures
        rows_showing(seq![r], i) == if r.item_index == Some(i as nat) {
            1nat
        } else {
            0nat
        },
{
    assert(seq![r].drop_last() =~= Seq::<RowView>::empty());
    assert(rows_showing(Seq::<RowView>::empty(), i) == 0);
    assert(seq![r].last() == r);
}

proof fn lemma_pane_rows_count(
    items: Seq<TreeSelectItem>,
    matches: Seq<bool>,
    panes: Seq<int>,
    j: int,
    ancestor_last: Seq<bool>,
    root: nat,
    i: int,
)
    requires
        0 <= j <= panes.len(),
        0 <= i,
        forall|k: int| 0 <= k < panes.len() ==> #[trigger] panes[k] >= 0,
        forall|x: int, y: int| 0 <= x < y < panes.len() ==> panes[x] < panes[y],
    ensures
        rows_showing(pane_rows_from(items, matches, panes, j, ancestor_last, root), i) == if exists|k: int|
            j <= k < panes.len() && panes[k] == i {
            1nat
        } else {
            0nat
        },
    decreases panes.len() - j,
{
    if j < panes.len() {
        let first = seq![pane_row(items, matches, panes[j], root, ancestor_last, j == panes.len() - 1)];
        let rest = pane_rows_from(items, matches, panes, j + 1, ancestor_last, root);
        assert(pane_rows_from(items, matches, panes, j, ancestor_last, root) == first + rest);
        lemma_rows_showing_concat(first, rest, i);
        lemma_one_row(first[0], i);
        lemma_pane_rows_count(items, matches, panes, j + 1, ancestor_last, root, i);
        if panes[j] == i {
            assert(!exists|k: int| j + 1 <= k < panes.len() && panes[k] == i);
        } else {
            assert((exists|k: int| j <= k < panes.len() && panes[k] == i) == (exists|k: int|
                j + 1 <= k < panes.len() && panes[k] == i));
        }
    }
}

proof fn lemma_tab_rows_count(
    items: Seq<TreeSelectItem>,
    matches: Seq<bool>,
    a: Seq<char>,
    w: usize,
    tabs: Seq<usize>,
    j: int,
    ancestor_last: Seq<bool>,
    root: nat,
    i: int,
)
    requires
        0 <= j <= tabs.len(),
        tabs.no_duplicates(),
        0 <= i < items.len(),
    ensures
        rows_showing(tab_rows_from(items, matches, a, w, tabs, j, ancestor_last, root), i) == if exists|k: int|
            j <= k < tabs.len() && in_group(a, Some(w), Some(tabs[k]))(items[i]) {
            1nat
        } else {
            0nat
        },
    decreases tabs.len() - j,
{
    if j < tabs.len() {
        let last = j == tabs.len() - 1;
        let panes = panes_of(items, a, w, tabs[j]);
        let head = seq![branch_row(2, "Tab "@ + crate::text::decimal(tabs[j] as nat), any_matched(matches, panes), root, ancestor_last, last)];
        let pane_rows = pane_rows_from(items, matches, panes, 0, ancestor_last.push(last), root);
        let rest = tab_rows_from(items, matches, a, w, tabs, j + 1, ancestor_last, root);
        assert(tab_rows_from(items, matches, a, w, tabs, j, ancestor_last, root) == head + pane_rows + rest);
        lemma_rows_showing_concat(head + pane_rows, rest, i);
        lemma_rows_showing_concat(head, pane_rows, i);
        lemma_one_row(head[0], i);
        lemma_members(items, in_group(a, Some(w), Some(tabs[j])), items.len() as int);
        lemma_pane_rows_count(items, matches, panes, 0, ancestor_last.push(last), root, i);
        lemma_tab_rows_count(items, matches, a, w, tabs, j + 1, ancestor_last, root, i);
        let here = in_group(a, Some(w), Some(tabs[j]))(items[i]);
        assert((exists|k: int| 0 <= k < panes.len() && panes[k] == i) == here) by {
            if here {
                assert(panes.contains(i));
            }
            if exists|k: int| 0 <= k < panes.len() && panes[k] == i {
                let k = choose|k: int| 0 <= k < panes.len() && panes[k] == i;
                assert(in_group(a, Some(w), Some(tabs[j]))(items[panes[k]]));
            }
        }
        if here {
            assert forall|k: int| j + 1 <= k < tabs.len() implies !in_group(a, Some(w), Some(tabs[k]))(items[i]) by {
                assert(tabs[k] != tabs[j]);
            }
        } else {
            assert((exists|k: int| j <= k < tabs.len() && in_group(a, Some(w), Some(tabs[k]))(items[i])) == (exists|
                k: int,
            | j + 1 <= k < tabs.len() && in_group(a, Some(w), Some(tabs[k]))(items[i])));
        }
    }
}

proof fn lemma_window_rows_count(
    items: Seq<TreeSelectItem>,
    matches: Seq<bool>,
    a: Seq<char>,
    windows: Seq<usize>,
    j: int,
    ancestor_last: Seq<bool>,
    root: nat,
    i: int,
)
    requires
        0 <= j <= windows.len(),
        windows.no_duplicates(),
        0 <= i < items.len(),
    ensures
        rows_showing(window_rows_from(items, matches, a, windows, j, ancestor_last, root), i) == if exists|
            k: int,
        | j <= k < windows.len() && in_group(a, Some(windows[k]), None)(items[i]) {
            1nat
        } else {
            0nat
        },
    decreases windows.len() - j,
{
    if j < windows.len() {
        let last = j == windows.len() - 1;
        let w = windows[j];
        let head = seq![
            branch_row(
                1,
                "Window "@ + crate::text::decimal(w as nat),
                any_matched(matches, members(items, in_group(a, Some(w), None), items.len() as int)),
                root,
                ancestor_last,
                last,
            ),
        ];
        let tabs = tabs_of(items, a, w);
        let tab_rows = tab_rows_from(items, matches, a, w, tabs, 0, ancestor_last.push(last), root);
        let rest = window_rows_from(items, matches, a, windows, j + 1, ancestor_last, root);
        assert(window_rows_from(items, matches, a, windows, j, ancestor_last, root) == head + tab_rows + rest);
        lemma_rows_showing_concat(head + tab_rows, rest, i);
        lemma_rows_showing_concat(head, tab_rows, i);
        lemma_one_row(head[0], i);
        let in_window = members(items, in_group(a, Some(w), None), items.len() as int);
        lemma_distinct_order_unique(in_window.map_values(|x: int| items[x].tab_index));
        lemma_tab_rows_count(items, matches, a, w, tabs, 0, ancestor_last.push(last), root, i);
        lemma_window_rows_count(items, matches, a, windows, j + 1, ancestor_last, root, i);
        let here = in_group(a, Some(w), None)(items[i]);
        assert((exists|k: int| 0 <= k < tabs.len() && in_group(a, Some(w), Some(tabs[k]))(items[i])) == here) by {
            if here {
                let t = items[i].tab_index;
                lemma_members(items, in_group(a, Some(w), None), items.len() as int);
                assert(in_window.contains(i));
                let p = choose|p: int| 0 <= p < in_window.len() && in_window[p] == i;
                let tab_list = in_window.map_values(|x: int| items[x].tab_index);
                assert(tab_list[p] == t);
                lemma_distinct_order_keeps(tab_list, t);
                let q = choose|q: int| 0 <= q < tabs.len() && tabs[q] == t;
                assert(in_group(a, Some(w), Some(tabs[q]))(items[i]));
            }
        }
        if here {
            assert forall|k: int| j + 1 <= k < windows.len() implies !in_group(a, Some(windows[k]), None)(items[i]) by {
                assert(windows[k] != windows[j]);
            }
        } else {
            assert((exists|k: int| j <= k < windows.len() && in_group(a, Some(windows[k]), None)(items[i])) == (exists|
                k: int,
            | j + 1 <= k < windows.len() && in_group(a, Some(windows[k]), None)(items[i])));
        }
    }
}

proof fn lemma_app_rows_count(
    items: Seq<TreeSelectItem>,
    matches: Seq<bool>,
    apps: Seq<Seq<char>>,
    j: int,
    start: nat,
    i: int,
)
    requires
        0 <= j <= apps.len(),
        apps.no_duplicates(),
        0 <= i < items.len(),
    ensures
        rows_showing(app_rows_from(items, matches, apps, j, start), i) == if exists|k: int|
            j <= k < apps.len() && app_key(items[i]) == apps[k] {
            1nat
        } else {
            0nat
        },
    decreases apps.len() - j,
{
    if j < apps.len() {
        let a = apps[j];
        let last = j == apps.len() - 1;
        let block = app_block(items, matches, a, last, start);
        let rest = app_rows_from(items, matches, apps, j + 1, start + block.len());
        assert(app_rows_from(items, matches, apps, j, start) == block + rest);
        let idxs = members(items, in_group(a, None, None), items.len() as int);
        let head = seq![branch_row(0, items[idxs[0]].application@, any_matched(matches, idxs), start, Seq::empty(), last)];
        let windows = windows_of(items, a);
        let window_rows = window_rows_from(items, matches, a, windows, 0, seq![last], start);
        assert(block == head + window_rows);
        lemma_rows_showing_concat(block, rest, i);
        lemma_rows_showing_concat(head, window_rows, i);
        lemma_one_row(head[0], i);
        lemma_distinct_order_unique(idxs.map_values(|x: int| items[x].window_index));
        lemma_window_rows_count(items, matches, a, windows, 0, seq![last], start, i);
        lemma_app_rows_count(items, matches, apps, j + 1, start + block.len(), i);
        let here = app_key(items[i]) == a;
        assert((exists|k: int| 0 <= k < windows.len() && in_group(a, Some(windows[k]), None)(items[i])) == here) by {
            if here {
                lemma_members(items, in_group(a, None, None), items.len() as int);
                assert(in_group(a, None, None)(items[i]));
                assert(idxs.contains(i));
                let p = choose|p: int| 0 <= p < idxs.len() && idxs[p] == i;
                let window_list = idxs.map_values(|x: int| items[x].window_index);
                assert(window_list[p] == items[i].window_index);
                lemma_distinct_order_keeps(window_list, items[i].window_index);
                let q = choose|q: int| 0 <= q < windows.len() && windows[q] == items[i].window_index;
                assert(in_group(a, Some(windows[q]), None)(items[i]));
            }
        }
        if here {
            assert forall|k: int| j + 1 <= k < apps.len() implies app_key(items[i]) != apps[k] by {
                assert(apps[k] != apps[j]);
            }
        } else {
            assert((exists|k: int| j <= k < apps.len() && app_key(items[i]) == apps[k]) == (exists|k: int|
                j + 1 <= k < apps.len() && app_key(items[i]) == apps[k]));
        }
    }
}

/// No pane shows twice: the tree has exactly one row for each pane.
pub proof fn law_each_pane_has_one_row(items: Seq<TreeSelectItem>, matches: Seq<bool>, i: int)
    requires
        0 <= i < items.len(),
    ensures
        rows_showing(tree_rows(items, matches), i) == 1,
{
    let keys = items.map_values(|it: TreeSelectItem| app_key(it));
    assert(keys[i] == app_key(items[i]));
    lemma_distinct_order_keeps(keys, app_key(items[i]));
    lemma_distinct_order_unique(keys);
    let apps = apps_of(items);
    lemma_app_rows_count(items, matches, apps, 0, 0, i);
}

/// Leaving the workflow chooser with a new file selected loads that file:
/// where the selection cannot move further, moving on loads it, and a
/// workflow that loads becomes the saved one and the focus moves on.
pub proof fn law_leaving_the_chooser_loads_its_file(
    before: InputScreen,
    after: InputScreen,
    direction: NavigationDirection,
    loaded: Option<Result<Workflow, String>>,
)
    requires
        before.focus_view() == Focus::Workflow,
        before.workflow_view().step_view() is Load,
        at_end(before.workflow_view().select_view(), direction),
        navigated_screen(before, after, direction, false, loaded),
    ensures
        loaded is Some,
        loaded matches Some(Ok(w)) ==> after.workflow_view().selected_workflow() == Some(w) && after.focus_view()
            == step(Focus::Workflow, direction, after.fields_view().len()),
{
    let (mid, within) = choose|mid: InputScreen, within: bool|
        #[trigger] moved_within(before, mid, direction, false, within) && if within {
            crate::screen::same_screen(mid, after)
        } else {
            exists|saved_state: InputScreen, saved: bool|
                #[trigger] focused_saved(mid, saved_state, saved, loaded) && focus_moved(
                    saved_state,
                    after,
                    direction,
                    saved,
                )
        };
    assert(!within);
    let (saved_state, saved) = choose|saved_state: InputScreen, saved: bool|
        #[trigger] focused_saved(mid, saved_state, saved, loaded) && focus_moved(saved_state, after, direction, saved);
    assert(mid.workflow_view().select_view().selected_item() == before.workflow_view().select_view().selected_item());
    assert(load_due(mid));
}

} // verus!
