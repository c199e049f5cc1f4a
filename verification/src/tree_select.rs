//! A searchable tree of terminal panes: the query narrows the candidates,
//! the tree keeps every pane visible, and a viewport of a fixed number of
//! lines follows the selected pane.
use vstd::prelude::*;

use crate::search::{item_matches, parse_query, query_parses, QueryClause, TreeSelectItem};
use crate::select::{index_in, NavigationDirection};
use crate::display::{tree_prefix, tree_prefix_text};
use crate::text::{
    chars_eq, chars_of, decimal, decimal_chars, is_blank, is_blank_text, lower, lower_char, push_all,
    string_from_chars, to_ascii_lower, views,
};
use crate::tree::{create_rows, ints, members, row_views, tree_rows, RowView, TreeSelectRow};

verus! {

// ---------------------------------------------------------------------------
// The model
// ---------------------------------------------------------------------------

/// A query is shown, and takes a line of the list, when it holds more than
/// whitespace.
pub open spec fn has_query(query: Seq<char>) -> bool {
    !is_blank(query)
}

/// The rows that fit in `visible_lines` lines, leaving a line for the query
/// summary where there is a query; at least one.
pub open spec fn row_capacity(visible_lines: nat, has_query: bool) -> nat {
    let lines: int = if has_query {
        visible_lines - 1
    } else {
        visible_lines as int
    };
    if lines >= 1 {
        lines as nat
    } else {
        1
    }
}

/// `a - b`, or 0 where `b` is larger.
pub open spec fn minus(a: int, b: int) -> nat {
    if a > b {
        (a - b) as nat
    } else {
        0
    }
}

pub open spec fn min_nat(a: nat, b: nat) -> nat {
    if a < b {
        a
    } else {
        b
    }
}

/// The last row at which the viewport may start.
pub open spec fn max_viewport_start(rows: nat, capacity: nat) -> nat {
    minus(rows as int, capacity as int)
}

/// Whether an item passes the outcome of a query: it satisfies every clause
/// of a valid query, and nothing passes an invalid one.
pub open spec fn passes(outcome: Result<Vec<QueryClause>, String>) -> spec_fn(TreeSelectItem) -> bool {
    |it: TreeSelectItem|
        match outcome {
            Ok(clauses) => item_matches(it, clauses@),
            Err(_) => false,
        }
}

/// The positions of the candidates: the items that pass, in item order.
pub open spec fn candidates_for(items: Seq<TreeSelectItem>, outcome: Result<Vec<QueryClause>, String>) -> Seq<int> {
    members(items, passes(outcome), items.len() as int)
}

/// For each item, whether it passes.
pub open spec fn match_flags(items: Seq<TreeSelectItem>, outcome: Result<Vec<QueryClause>, String>) -> Seq<bool> {
    Seq::new(items.len(), |i: int| passes(outcome)(items[i]))
}

/// The first position at or after `from` of an item with key `key`.
pub open spec fn first_key(items: Seq<TreeSelectItem>, key: Seq<char>, from: int) -> Option<int>
    decreases items.len() - from,
{
    if from < 0 || from >= items.len() {
        None
    } else if items[from].key@ == key {
        Some(from)
    } else {
        first_key(items, key, from + 1)
    }
}

/// The selection after the candidates are recomputed: the candidate with
/// the remembered key where it is still a candidate, else the first.
pub open spec fn reselect(items: Seq<TreeSelectItem>, candidates: Seq<usize>, key: Option<Seq<char>>) -> Option<usize> {
    let kept = match key {
        Some(k) => match first_key(items, k, 0) {
            Some(i) => index_in(candidates, i, 0),
            None => None,
        },
        None => None,
    };
    match kept {
        Some(p) => Some(p as usize),
        None => if candidates.len() > 0 {
            Some(0usize)
        } else {
            None
        },
    }
}

/// The first row at or after `from` that shows item `item`.
pub open spec fn first_row(rows: Seq<RowView>, item: nat, from: int) -> Option<int>
    decreases rows.len() - from,
{
    if from < 0 || from >= rows.len() {
        None
    } else if rows[from].item_index == Some(item) {
        Some(from)
    } else {
        first_row(rows, item, from + 1)
    }
}

/// Where the viewport starts to show row `row`: at the row of its
/// application where both fit, else with `row` on the last line.
pub open spec fn selection_start(rows: Seq<RowView>, row: int, capacity: nat) -> nat {
    let root = rows[row].root_index;
    if minus(row, root as int) < capacity {
        root
    } else {
        minus(row + 1, capacity as int)
    }
}

/// The viewport start and the scrolled flag after the selected row is
/// brought into view; nothing changes where nothing is selected.
pub open spec fn ensure_visible(
    rows: Seq<RowView>,
    start: nat,
    capacity: nat,
    item: Option<usize>,
    scrolled: bool,
) -> (nat, bool) {
    match item {
        None => (start, scrolled),
        Some(i) => match first_row(rows, i as nat, 0) {
            None => (start, scrolled),
            Some(row) => {
                let moved = if row < start || row >= start + capacity {
                    selection_start(rows, row, capacity)
                } else {
                    start
                };
                (min_nat(moved, max_viewport_start(rows.len(), capacity)), false)
            },
        },
    }
}

/// The viewport start with the selected row in the middle, as far as the
/// rows allow.
pub open spec fn centered(rows: Seq<RowView>, start: nat, capacity: nat, item: Option<usize>) -> nat {
    match item {
        None => start,
        Some(i) => match first_row(rows, i as nat, 0) {
            None => start,
            Some(row) => min_nat(
                minus(row, (capacity / 2) as int),
                max_viewport_start(rows.len(), capacity),
            ),
        },
    }
}

/// The selection one candidate back or forward, or `None` where there is
/// none to move to.
pub open spec fn moved(selected: Option<usize>, count: nat, direction: NavigationDirection) -> Option<usize> {
    match (direction, selected) {
        (NavigationDirection::Previous, Some(p)) => if p > 0 {
            Some((p - 1) as usize)
        } else {
            None
        },
        (NavigationDirection::Next, Some(p)) => if p + 1 < count {
            Some((p + 1) as usize)
        } else {
            None
        },
        _ => None,
    }
}


// ---------------------------------------------------------------------------
// The state
// ---------------------------------------------------------------------------

/// The terminal tree with its query, candidates, selection and viewport.
pub struct TreeSelect {
    query: Vec<char>,
    items: Vec<TreeSelectItem>,
    rows: Vec<TreeSelectRow>,
    candidates: Vec<usize>,
    selected: Option<usize>,
    outcome: Result<Vec<QueryClause>, String>,
    visible_lines: usize,
    viewport_start: usize,
    viewport_was_scrolled: bool,
}

impl TreeSelect {
    #[verifier::type_invariant]
    spec fn consistent(self) -> bool {
        &&& query_parses(self.query@, self.outcome)
        &&& ints(self.candidates@) == candidates_for(self.items@, self.outcome)
        &&& forall|k: int| 0 <= k < self.candidates@.len() ==> #[trigger] self.candidates@[k] < self.items@.len()
        &&& row_views(self.rows@) == tree_rows(self.items@, match_flags(self.items@, self.outcome))
        &&& match self.selected {
            Some(p) => p < self.candidates@.len(),
            None => self.candidates@.len() == 0,
        }
        &&& self.viewport_start <= max_viewport_start(
            self.rows@.len(),
            row_capacity(self.visible_lines as nat, has_query(self.query@)),
        )
    }

    /// The query text.
    pub closed spec fn query_view(self) -> Seq<char> {
        self.query@
    }

    /// The items, in the order given.
    pub closed spec fn items_view(self) -> Seq<TreeSelectItem> {
        self.items@
    }

    /// What the query was read as: its clauses, or the error.
    pub closed spec fn outcome_view(self) -> Result<Vec<QueryClause>, String> {
        self.outcome
    }

    /// The positions of the candidates among the items.
    pub closed spec fn candidates_view(self) -> Seq<usize> {
        self.candidates@
    }

    /// The rows of the tree.
    pub closed spec fn rows_view(self) -> Seq<RowView> {
        row_views(self.rows@)
    }

    /// The position, among the candidates, of the selected one.
    pub closed spec fn selected_view(self) -> Option<usize> {
        self.selected
    }

    /// The number of lines the list may take.
    pub closed spec fn visible_lines_view(self) -> nat {
        self.visible_lines as nat
    }

    /// The first row shown.
    pub closed spec fn viewport_view(self) -> nat {
        self.viewport_start as nat
    }

    /// Whether the viewport was scrolled by hand since the selection last
    /// moved.
    pub closed spec fn scrolled_view(self) -> bool {
        self.viewport_was_scrolled
    }

    /// The rows that fit in the viewport.
    pub open spec fn capacity(self) -> nat {
        row_capacity(self.visible_lines_view(), has_query(self.query_view()))
    }

    /// The last row at which the viewport may start.
    pub open spec fn max_start(self) -> nat {
        max_viewport_start(self.rows_view().len(), self.capacity())
    }

    /// The position among the items of the selected candidate.
    pub open spec fn selected_item_view(self) -> Option<usize> {
        match self.selected_view() {
            Some(p) => Some(self.candidates_view()[p as int]),
            None => None,
        }
    }

    /// The rows shown in the viewport.
    pub open spec fn visible_row_count(self) -> nat {
        min_nat(minus(self.rows_view().len() as int, self.viewport_view() as int), self.capacity())
    }

    /// An empty tree showing up to `visible_lines` lines.
    pub fn new(visible_lines: usize) -> (res: TreeSelect)
        ensures
            res.query_view() == Seq::<char>::empty(),
            res.items_view() == Seq::<TreeSelectItem>::empty(),
            res.candidates_view() == Seq::<usize>::empty(),
            res.rows_view() == Seq::<RowView>::empty(),
            res.selected_view() is None,
            res.visible_lines_view() == visible_lines,
            res.viewport_view() == 0,
            !res.scrolled_view(),
    {
        let query: Vec<char> = Vec::new();
        let outcome = parse_query(&query);
        let items: Vec<TreeSelectItem> = Vec::new();
        let flags: Vec<bool> = Vec::new();
        let rows = create_rows(&items, &flags);
        assert(flags@ =~= match_flags(items@, outcome));
        assert(candidates_for(items@, outcome) =~= Seq::<int>::empty());
        assert(ints(Seq::<usize>::empty()) =~= Seq::<int>::empty());
        assert(row_views(rows@).len() == rows@.len());
        assert(tree_rows(items@, flags@) =~= Seq::<RowView>::empty());
        TreeSelect {
            query,
            items,
            rows,
            candidates: Vec::new(),
            selected: None,
            outcome,
            visible_lines,
            viewport_start: 0,
            viewport_was_scrolled: false,
        }
    }
}


// ---------------------------------------------------------------------------
// Searching and arithmetic
// ---------------------------------------------------------------------------

/// The rows that fit in `visible_lines` lines.
fn capacity_for(visible_lines: usize, has_query: bool) -> (res: usize)
    ensures
        res == row_capacity(visible_lines as nat, has_query),
{
    let lines = if has_query {
        visible_lines.saturating_sub(1)
    } else {
        visible_lines
    };
    if lines >= 1 {
        lines
    } else {
        1
    }
}

/// The first position of an item with key `key`.
fn find_key(items: &Vec<TreeSelectItem>, key: &[char]) -> (res: Option<usize>)
    ensures
        match res {
            Some(i) => first_key(items@, key@, 0) == Some(i as int),
            None => first_key(items@, key@, 0) is None,
        },
{
    let mut i: usize = 0;
    while i < items.len()
        invariant
            i <= items.len(),
            first_key(items@, key@, 0) == first_key(items@, key@, i as int),
        decreases items.len() - i,
    {
        if chars_eq(&chars_of(items[i].key.as_str()), key) {
            return Some(i);
        }
        i += 1;
    }
    None
}

/// The first position at which `s` holds `x`.
fn find_index(s: &Vec<usize>, x: usize) -> (res: Option<usize>)
    ensures
        match res {
            Some(p) => index_in(s@, x as int, 0) == Some(p as int),
            None => index_in(s@, x as int, 0) is None,
        },
{
    let mut p: usize = 0;
    while p < s.len()
        invariant
            p <= s.len(),
            index_in(s@, x as int, 0) == index_in(s@, x as int, p as int),
        decreases s.len() - p,
    {
        if s[p] == x {
            return Some(p);
        }
        p += 1;
    }
    None
}

/// The first row that shows item `item`.
fn find_row(rows: &Vec<TreeSelectRow>, item: usize) -> (res: Option<usize>)
    ensures
        match res {
            Some(r) => first_row(row_views(rows@), item as nat, 0) == Some(r as int),
            None => first_row(row_views(rows@), item as nat, 0) is None,
        },
{
    let mut r: usize = 0;
    while r < rows.len()
        invariant
            r <= rows.len(),
            first_row(row_views(rows@), item as nat, 0) == first_row(
                row_views(rows@),
                item as nat,
                r as int,
            ),
        decreases rows.len() - r,
    {
        let same = match rows[r].item_index {
            Some(i) => i == item,
            None => false,
        };
        assert(row_views(rows@)[r as int] == rows@[r as int].view_row());
        if same {
            return Some(r);
        }
        r += 1;
    }
    None
}

/// Reads the query and recomputes the candidates, the rows, the viewport
/// and the selection, which stays on the item with key `key` where that is
/// still a candidate.
fn rebuild(
    query: Vec<char>,
    items: Vec<TreeSelectItem>,
    visible_lines: usize,
    viewport_start: usize,
    scrolled: bool,
    key: Option<Vec<char>>,
) -> (res: TreeSelect)
    ensures
        res.query_view() == query@,
        res.items_view() == items@,
        res.visible_lines_view() == visible_lines,
        res.scrolled_view() == scrolled,
        query_parses(query@, res.outcome_view()),
        ints(res.candidates_view()) == candidates_for(items@, res.outcome_view()),
        res.rows_view() == tree_rows(items@, match_flags(items@, res.outcome_view())),
        res.viewport_view() == min_nat(viewport_start as nat, res.max_start()),
        res.selected_view() == reselect(
            items@,
            res.candidates_view(),
            match key {
                Some(k) => Some(k@),
                None => None,
            },
        ),
{
    let outcome = parse_query(&query);
    let mut flags: Vec<bool> = Vec::new();
    let mut candidates: Vec<usize> = Vec::new();
    let mut i: usize = 0;
    while i < items.len()
        invariant
            i <= items.len(),
            flags@ == match_flags(items@, outcome).take(i as int),
            ints(candidates@) == members(items@, passes(outcome), i as int),
            forall|k: int| 0 <= k < candidates@.len() ==> #[trigger] candidates@[k] < i,
        decreases items.len() - i,
    {
        let flag = match &outcome {
            Ok(clauses) => items[i].matches(clauses.as_slice()),
            Err(_) => false,
        };
        assert(flag == passes(outcome)(items@[i as int]));
        flags.push(flag);
        let ghost before = candidates@;
        if flag {
            candidates.push(i);
            assert(ints(candidates@) =~= ints(before).push(i as int));
        }
        i += 1;
        assert(flags@ =~= match_flags(items@, outcome).take(i as int));
    }
    assert(flags@ =~= match_flags(items@, outcome));
    let rows = create_rows(&items, &flags);
    let capacity = capacity_for(visible_lines, !is_blank_text(&query));
    let max_start = rows.len().saturating_sub(capacity);
    assert(row_views(rows@).len() == rows@.len());
    let start = if viewport_start < max_start {
        viewport_start
    } else {
        max_start
    };
    let kept = match &key {
        Some(k) => match find_key(&items, k) {
            Some(i) => {
                let found = find_index(&candidates, i);
                proof {
                    lemma_index_in_bounds(candidates@, i as int, 0);
                }
                found
            },
            None => None,
        },
        None => None,
    };
    let selected = match kept {
        Some(p) => Some(p),
        None => if candidates.len() > 0 {
            Some(0)
        } else {
            None
        },
    };
    proof {
    }
    TreeSelect {
        query,
        items,
        rows,
        candidates,
        selected,
        outcome,
        visible_lines,
        viewport_start: start,
        viewport_was_scrolled: scrolled,
    }
}

proof fn lemma_first_row_bounds(rows: Seq<RowView>, item: nat, from: int)
    ensures
        first_row(rows, item, from) matches Some(r) ==> 0 <= r < rows.len() && rows[r].item_index == Some(item),
    decreases rows.len() - from,
{
    if 0 <= from < rows.len() && rows[from].item_index != Some(item) {
        lemma_first_row_bounds(rows, item, from + 1);
    }
}

proof fn lemma_index_in_bounds(s: Seq<usize>, x: int, from: int)
    ensures
        index_in(s, x, from) matches Some(p) ==> 0 <= p < s.len() && s[p] == x,
    decreases s.len() - from,
{
    if 0 <= from < s.len() && s[from] != x {
        lemma_index_in_bounds(s, x, from + 1);
    }
}


/// `after` is `before` with its items replaced by `items`: the query is
/// read again, the candidates and rows recomputed, the viewport kept where
/// it still fits, and the selection kept on the item with the same key
/// where it is still a candidate.
pub open spec fn replaced(before: TreeSelect, after: TreeSelect, items: Seq<TreeSelectItem>) -> bool {
    &&& after.items_view() == items
    &&& after.query_view() == before.query_view()
    &&& after.visible_lines_view() == before.visible_lines_view()
    &&& after.scrolled_view() == before.scrolled_view()
    &&& query_parses(after.query_view(), after.outcome_view())
    &&& ints(after.candidates_view()) == candidates_for(items, after.outcome_view())
    &&& after.rows_view() == tree_rows(items, match_flags(items, after.outcome_view()))
    &&& after.viewport_view() == min_nat(before.viewport_view(), after.max_start())
    &&& after.selected_view() == reselect(items, after.candidates_view(), before.selected_key_view())
}

/// Two states show the same items, query, candidates and rows.
pub open spec fn same_content(a: TreeSelect, b: TreeSelect) -> bool {
    &&& a.query_view() == b.query_view()
    &&& a.items_view() == b.items_view()
    &&& a.outcome_view() == b.outcome_view()
    &&& a.candidates_view() == b.candidates_view()
    &&& a.rows_view() == b.rows_view()
    &&& a.visible_lines_view() == b.visible_lines_view()
}

impl TreeSelect {
    /// The key of the selected item.
    pub open spec fn selected_key_view(self) -> Option<Seq<char>> {
        match self.selected_item_view() {
            Some(i) => Some(self.items_view()[i as int].key@),
            None => None,
        }
    }

    /// The candidate that row `row` of the viewport offers, where it shows
    /// a selectable pane.
    pub open spec fn candidate_at(self, row: nat) -> Option<usize> {
        if row >= self.visible_row_count() {
            None
        } else {
            let r = self.rows_view()[self.viewport_view() + row as int];
            if !r.selectable {
                None
            } else {
                match r.item_index {
                    None => None,
                    Some(i) => match index_in(self.candidates_view(), i as int, 0) {
                        Some(p) => Some(p as usize),
                        None => None,
                    },
                }
            }
        }
    }

    /// The lines the list may take.
    pub fn visible_lines(&self) -> (res: usize)
        ensures
            res == self.visible_lines_view(),
    {
        self.visible_lines
    }

    /// The positions of the candidates among the items.  The selection is
    /// always one of them, and there is one exactly when there are any.
    pub fn candidates(&self) -> (res: &Vec<usize>)
        ensures
            res@ == self.candidates_view(),
            match self.selected_view() {
                Some(p) => p < res@.len(),
                None => res@.len() == 0,
            },
    {
        proof {
            use_type_invariant(self);
        }
        &self.candidates
    }

    /// The rows of the tree.
    pub fn rows(&self) -> (res: &Vec<TreeSelectRow>)
        ensures
            row_views(res@) == self.rows_view(),
    {
        &self.rows
    }

    /// The first row shown.
    pub fn viewport_start(&self) -> (res: usize)
        ensures
            res == self.viewport_view(),
            res <= self.max_start(),
    {
        proof {
            use_type_invariant(self);
        }
        self.viewport_start
    }

    /// The key of the selected item.
    pub fn selected_key(&self) -> (res: Option<&str>)
        ensures
            match res {
                Some(k) => self.selected_key_view() == Some(k@),
                None => self.selected_key_view() is None,
            },
    {
        proof {
            use_type_invariant(self);
        }
        match self.selected {
            Some(p) => Some(self.items[self.candidates[p]].key.as_str()),
            None => None,
        }
    }

    /// Replaces the items, keeping the query; the selection stays on the
    /// item with the same key where it is still a candidate.
    pub fn replace_items(&mut self, items: Vec<TreeSelectItem>)
        ensures
            replaced(*old(self), *final(self), items@),
    {
        let key: Option<Vec<char>> = match self.selected_key() {
            Some(k) => Some(chars_of(k)),
            None => None,
        };
        let mut previous = TreeSelect::new(0);
        std::mem::swap(self, &mut previous);
        let TreeSelect { query, items: _, rows: _, candidates: _, selected: _, outcome: _, visible_lines, viewport_start, viewport_was_scrolled } = previous;
        *self = rebuild(query, items, visible_lines, viewport_start, viewport_was_scrolled, key);
    }

    /// Brings the selected row into view.
    fn ensure_selected_visible(&mut self)
        ensures
            same_content(*final(self), *old(self)),
            final(self).selected_view() == old(self).selected_view(),
            (final(self).viewport_view(), final(self).scrolled_view()) == ensure_visible(
                old(self).rows_view(),
                old(self).viewport_view(),
                old(self).capacity(),
                old(self).selected_item_view(),
                old(self).scrolled_view(),
            ),
    {
        proof {
            use_type_invariant(&*self);
        }
        let item = match self.selected {
            Some(p) => self.candidates[p],
            None => return,
        };
        let row = match find_row(&self.rows, item) {
            Some(r) => r,
            None => return,
        };
        proof {
            lemma_first_row_bounds(row_views(self.rows@), item as nat, 0);
        }
        let capacity = capacity_for(self.visible_lines, !is_blank_text(&self.query));
        let max_start = self.rows.len().saturating_sub(capacity);
        let mut start = self.viewport_start;
        if row < start || row >= start.saturating_add(capacity) {
            let root = self.rows[row].root_index;
            start = if row.saturating_sub(root) < capacity {
                root
            } else {
                row.saturating_add(1).saturating_sub(capacity)
            };
        }
        if start > max_start {
            start = max_start;
        }
        assert(row_views(self.rows@)[row as int] == self.rows@[row as int].view_row());
        self.viewport_start = start;
        self.viewport_was_scrolled = false;
    }

    /// The query typed.
    pub fn query_text(&self) -> (res: &Vec<char>)
        ensures
            res@ == self.query_view(),
    {
        &self.query
    }

    /// Replaces the query: the candidates are those that satisfy it, the
    /// first is selected, and the viewport shows it.
    pub fn set_query(&mut self, query: &[char])
        ensures
            final(self).items_view() == old(self).items_view(),
            final(self).query_view() == query@,
            final(self).visible_lines_view() == old(self).visible_lines_view(),
            query_parses(query@, final(self).outcome_view()),
            ints(final(self).candidates_view()) == candidates_for(old(self).items_view(), final(self).outcome_view()),
            final(self).rows_view() == tree_rows(
                old(self).items_view(),
                match_flags(old(self).items_view(), final(self).outcome_view()),
            ),
            final(self).selected_view() == reselect(old(self).items_view(), final(self).candidates_view(), None),
            (final(self).viewport_view(), final(self).scrolled_view()) == ensure_visible(
                final(self).rows_view(),
                min_nat(old(self).viewport_view(), final(self).max_start()),
                final(self).capacity(),
                final(self).selected_item_view(),
                old(self).scrolled_view(),
            ),
    {
        let mut text: Vec<char> = Vec::new();
        crate::text::push_all(&mut text, query);
        let mut previous = TreeSelect::new(0);
        std::mem::swap(self, &mut previous);
        let TreeSelect { query: _, items, rows: _, candidates: _, selected: _, outcome: _, visible_lines, viewport_start, viewport_was_scrolled } = previous;
        *self = rebuild(text, items, visible_lines, viewport_start, viewport_was_scrolled, None);
        self.ensure_selected_visible();
    }
}


/// `after` is `before` with the selection moved one candidate in
/// `direction`, where there is one, and the viewport following it: back to
/// the middle after a manual scroll, else just far enough to show it.
pub open spec fn navigated(before: TreeSelect, after: TreeSelect, direction: NavigationDirection) -> bool {
    &&& same_content(after, before)
    &&& match moved(before.selected_view(), before.candidates_view().len(), direction) {
        None => after.selected_view() == before.selected_view()
            && after.viewport_view() == before.viewport_view()
            && after.scrolled_view() == before.scrolled_view(),
        Some(p) => {
            let item = Some(before.candidates_view()[p as int]);
            &&& after.selected_view() == Some(p)
            &&& if before.scrolled_view() {
                after.viewport_view() == centered(
                    before.rows_view(),
                    before.viewport_view(),
                    before.capacity(),
                    item,
                ) && !after.scrolled_view()
            } else {
                (after.viewport_view(), after.scrolled_view()) == ensure_visible(
                    before.rows_view(),
                    before.viewport_view(),
                    before.capacity(),
                    item,
                    false,
                )
            }
        },
    }
}

impl TreeSelect {
    /// Puts the selected row in the middle of the viewport.
    fn center_selected(&mut self)
        ensures
            same_content(*final(self), *old(self)),
            final(self).selected_view() == old(self).selected_view(),
            final(self).scrolled_view() == old(self).scrolled_view(),
            final(self).viewport_view() == centered(
                old(self).rows_view(),
                old(self).viewport_view(),
                old(self).capacity(),
                old(self).selected_item_view(),
            ),
    {
        proof {
            use_type_invariant(&*self);
        }
        let item = match self.selected {
            Some(p) => self.candidates[p],
            None => return,
        };
        let row = match find_row(&self.rows, item) {
            Some(r) => r,
            None => return,
        };
        let capacity = capacity_for(self.visible_lines, !is_blank_text(&self.query));
        let max_start = self.rows.len().saturating_sub(capacity);
        let start = row.saturating_sub(capacity / 2);
        self.viewport_start = if start < max_start {
            start
        } else {
            max_start
        };
    }

    /// Moves the selection to the previous or next candidate, where there
    /// is one, and lets the viewport follow it: back to the middle after a
    /// manual scroll, else just far enough to show it. Says whether it
    /// moved.
    pub fn navigate(&mut self, direction: NavigationDirection) -> (res: bool)
        ensures
            navigated(*old(self), *final(self), direction),
            res == moved(old(self).selected_view(), old(self).candidates_view().len(), direction) is Some,
    {
        proof {
            use_type_invariant(&*self);
        }
        let next = match (direction, self.selected) {
            (NavigationDirection::Previous, Some(p)) => if p > 0 {
                Some(p - 1)
            } else {
                None
            },
            (NavigationDirection::Next, Some(p)) => if p < self.candidates.len() && p + 1 < self.candidates.len() {
                Some(p + 1)
            } else {
                None
            },
            _ => None,
        };
        match next {
            None => false,
            Some(p) => {
                self.selected = Some(p);
                if self.viewport_was_scrolled {
                    self.center_selected();
                    self.viewport_was_scrolled = false;
                } else {
                    self.ensure_selected_visible();
                }
                true
            },
        }
    }

    /// Scrolls the viewport one row up, where it can.
    pub fn scroll_backward(&mut self)
        ensures
            same_content(*final(self), *old(self)),
            final(self).selected_view() == old(self).selected_view(),
            final(self).viewport_view() == minus(old(self).viewport_view() as int, 1),
            final(self).scrolled_view() == (old(self).scrolled_view()
                || final(self).viewport_view() != old(self).viewport_view()),
    {
        proof {
            use_type_invariant(&*self);
        }
        let start = self.viewport_start.saturating_sub(1);
        let scrolled = self.viewport_was_scrolled || start != self.viewport_start;
        self.viewport_start = start;
        self.viewport_was_scrolled = scrolled;
    }

    /// Scrolls the viewport one row down, where it can.
    pub fn scroll_forward(&mut self)
        ensures
            same_content(*final(self), *old(self)),
            final(self).selected_view() == old(self).selected_view(),
            final(self).viewport_view() == min_nat(old(self).viewport_view() + 1, old(self).max_start()),
            final(self).scrolled_view() == (old(self).scrolled_view()
                || final(self).viewport_view() != old(self).viewport_view()),
    {
        proof {
            use_type_invariant(&*self);
        }
        let capacity = capacity_for(self.visible_lines, !is_blank_text(&self.query));
        let max_start = self.rows.len().saturating_sub(capacity);
        let next = self.viewport_start.saturating_add(1);
        let start = if next < max_start {
            next
        } else {
            max_start
        };
        let scrolled = self.viewport_was_scrolled || start != self.viewport_start;
        self.viewport_start = start;
        self.viewport_was_scrolled = scrolled;
    }

    /// Selects the pane shown at row `row` of the viewport, where it is a
    /// candidate; says whether it did.
    pub fn select_at(&mut self, row: usize) -> (res: bool)
        ensures
            same_content(*final(self), *old(self)),
            final(self).viewport_view() == old(self).viewport_view(),
            final(self).scrolled_view() == old(self).scrolled_view(),
            res == old(self).candidate_at(row as nat) is Some,
            final(self).selected_view() == match old(self).candidate_at(row as nat) {
                Some(p) => Some(p),
                None => old(self).selected_view(),
            },
    {
        proof {
            use_type_invariant(&*self);
        }
        let capacity = capacity_for(self.visible_lines, !is_blank_text(&self.query));
        let remaining = self.rows.len().saturating_sub(self.viewport_start);
        let shown = if remaining < capacity {
            remaining
        } else {
            capacity
        };
        if row >= shown {
            return false;
        }
        let index = self.viewport_start + row;
        assert(row_views(self.rows@)[index as int] == self.rows@[index as int].view_row());
        if !self.rows[index].selectable {
            return false;
        }
        let item = match self.rows[index].item_index {
            Some(i) => i,
            None => return false,
        };
        match find_index(&self.candidates, item) {
            Some(p) => {
                proof {
                    lemma_index_in_bounds(self.candidates@, item as int, 0);
                }
                self.selected = Some(p);
                true
            },
            None => false,
        }
    }
}


// ---------------------------------------------------------------------------
// Highlighting
// ---------------------------------------------------------------------------

/// `term` occurs in `text` at `s`, ASCII case ignored.
pub open spec fn window_at(text: Seq<char>, term: Seq<char>, s: int) -> bool {
    &&& 0 <= s
    &&& s + term.len() <= text.len()
    &&& lower(text.subrange(s, s + term.len())) == lower(term)
}

/// Character `k` of `text` lies in an occurrence, ASCII case ignored, of a
/// non-empty term.
pub open spec fn highlighted(text: Seq<char>, terms: Seq<Seq<char>>, k: int) -> bool {
    exists|t: int, s: int|
        0 <= t < terms.len() && terms[t].len() > 0 && #[trigger] window_at(text, terms[t], s) && s <= k < s
            + terms[t].len()
}

/// Character `k` lies in an occurrence of `term` that starts before `m`.
pub open spec fn covered_before(text: Seq<char>, term: Seq<char>, k: int, m: int) -> bool {
    exists|s: int| s < m && #[trigger] window_at(text, term, s) && s <= k < s + term.len()
}

/// Character `k` lies in an occurrence of one of the first `n` terms.
pub open spec fn covered_by_first(text: Seq<char>, terms: Seq<Seq<char>>, k: int, n: int) -> bool {
    exists|t: int, s: int|
        0 <= t < n && terms[t].len() > 0 && #[trigger] window_at(text, terms[t], s) && s <= k < s
            + terms[t].len()
}

/// Whether `term` occurs in `text` at `s`, ASCII case ignored.
fn window_matches(text: &[char], s: usize, term: &[char]) -> (res: bool)
    requires
        s + term.len() <= text.len(),
    ensures
        res == window_at(text@, term@, s as int),
{
    let mut j: usize = 0;
    while j < term.len()
        invariant
            s + term.len() <= text.len(),
            j <= term.len(),
            forall|m: int| 0 <= m < j ==> lower_char(#[trigger] text@[s + m]) == lower_char(term@[m]),
        decreases term.len() - j,
    {
        if to_ascii_lower(text[s + j]) != to_ascii_lower(term[j]) {
            assert(lower(text@.subrange(s as int, s + term.len()))[j as int] != lower(term@)[j as int]);
            return false;
        }
        j += 1;
    }
    assert forall|m: int| 0 <= m < term@.len() implies lower(text@.subrange(s as int, s + term.len()))[m]
        == lower(term@)[m] by {
        assert(lower_char(text@[s + m]) == lower_char(term@[m]));
    }
    assert(lower(text@.subrange(s as int, s + term.len())) =~= lower(term@));
    true
}

/// For each character of `text`, whether it lies in an occurrence, ASCII
/// case ignored, of one of the non-empty `terms`.
pub fn highlight(text: &[char], terms: &Vec<Vec<char>>) -> (res: Vec<bool>)
    ensures
        res@.len() == text@.len(),
        forall|k: int| 0 <= k < text@.len() ==> res@[k] == highlighted(text@, views(terms@), k),
{
    let n = text.len();
    let mut flags: Vec<bool> = Vec::new();
    while flags.len() < n
        invariant
            flags@.len() <= n,
            n == text@.len(),
            forall|k: int| 0 <= k < flags@.len() ==> !flags@[k],
        decreases n - flags@.len(),
    {
        flags.push(false);
    }
    let ghost tv = views(terms@);
    let mut t: usize = 0;
    while t < terms.len()
        invariant
            t <= terms.len(),
            n == text@.len(),
            tv == views(terms@),
            flags@.len() == n,
            forall|k: int| 0 <= k < n ==> flags@[k] == covered_by_first(text@, tv, k, t as int),
        decreases terms.len() - t,
    {
        let term = &terms[t];
        let len = term.len();
        assert(tv[t as int] == term@);
        if len > 0 && len <= n {
            let mut s: usize = 0;
            while s <= n - len
                invariant
                    0 < len <= n,
                    len == term@.len(),
                    n == text@.len(),
                    tv == views(terms@),
                    t < terms.len(),
                    tv[t as int] == term@,
                    s <= n - len + 1,
                    flags@.len() == n,
                    forall|k: int|
                        0 <= k < n ==> flags@[k] == (covered_by_first(text@, tv, k, t as int)
                            || covered_before(text@, term@, k, s as int)),
                decreases n - len + 1 - s,
            {
                if window_matches(text, s, term) {
                    let ghost before = flags@;
                    let mut j: usize = s;
                    while j < s + len
                        invariant
                            s <= j <= s + len,
                            s + len <= n,
                            flags@.len() == n,
                            before.len() == n,
                            forall|k: int|
                                0 <= k < n ==> before[k] == (covered_by_first(text@, tv, k, t as int)
                                    || covered_before(text@, term@, k, s as int)),
                            forall|k: int| 0 <= k < n ==> #[trigger] flags@[k] == (before[k] || (s <= k && k < j)),
                        decreases s + len - j,
                    {
                        flags.set(j, true);
                        j += 1;
                    }
                    assert(j == s + len);
                    assert forall|k: int| 0 <= k < n implies flags@[k] == (before[k] || (s <= k && k < s + len)) by {
                        assert(flags@[k] == (before[k] || (s <= k && k < j)));
                    }
                    assert forall|k: int| 0 <= k < n implies flags@[k] == (covered_by_first(text@, tv, k, t as int)
                        || covered_before(text@, term@, k, s + 1)) by {
                        assert(flags@[k] == (before[k] || (s <= k && k < s + len)));
                        if s <= k < s + len {
                            assert(window_at(text@, term@, s as int));
                            assert(covered_before(text@, term@, k, s + 1));
                        }
                        if covered_before(text@, term@, k, s as int) {
                            let w = choose|w: int| w < s && #[trigger] window_at(text@, term@, w) && w <= k < w + term@.len();
                            assert(covered_before(text@, term@, k, s + 1));
                        }
                        if covered_before(text@, term@, k, s + 1) && !(s <= k < s + len) {
                            let w = choose|w: int| w < s + 1 && #[trigger] window_at(text@, term@, w) && w <= k < w + term@.len();
                            assert(w < s);
                            assert(covered_before(text@, term@, k, s as int));
                        }
                    }
                } else {
                    assert forall|k: int| 0 <= k < n implies flags@[k] == (covered_by_first(text@, tv, k, t as int)
                        || covered_before(text@, term@, k, s + 1)) by {
                        if covered_before(text@, term@, k, s + 1) {
                            let w = choose|w: int| w < s + 1 && #[trigger] window_at(text@, term@, w) && w <= k < w + term@.len();
                            assert(w != s);
                        }
                    }
                }
                s += 1;
            }
            assert forall|k: int| 0 <= k < n implies flags@[k] == covered_by_first(text@, tv, k, t + 1) by {
                if covered_by_first(text@, tv, k, t + 1) && !covered_by_first(text@, tv, k, t as int) {
                    let (u, w) = choose|u: int, w: int|
                        0 <= u < t + 1 && tv[u].len() > 0 && #[trigger] window_at(text@, tv[u], w) && w <= k < w
                            + tv[u].len();
                    assert(u == t);
                    assert(covered_before(text@, term@, k, s as int));
                }
                if covered_before(text@, term@, k, s as int) {
                    let w = choose|w: int| w < s && #[trigger] window_at(text@, term@, w) && w <= k < w + term@.len();
                    assert(window_at(text@, tv[t as int], w));
                }
            }
        } else {
            assert forall|k: int| 0 <= k < n implies flags@[k] == covered_by_first(text@, tv, k, t + 1) by {
                if covered_by_first(text@, tv, k, t + 1) && !covered_by_first(text@, tv, k, t as int) {
                    let (u, w) = choose|u: int, w: int|
                        0 <= u < t + 1 && tv[u].len() > 0 && #[trigger] window_at(text@, tv[u], w) && w <= k < w
                            + tv[u].len();
                    assert(u == t);
                }
            }
        }
        t += 1;
    }
    flags
}


// ---------------------------------------------------------------------------
// What the list shows
// ---------------------------------------------------------------------------

/// The text a clause highlights: its value.
pub open spec fn clause_text(clause: QueryClause) -> Seq<char> {
    match clause {
        QueryClause::Text { value, .. } => value@,
        QueryClause::Number { value, .. } => decimal(value as nat),
    }
}

/// The texts that the clauses of a valid query highlight.
pub open spec fn clause_texts(outcome: Result<Vec<QueryClause>, String>) -> Seq<Seq<char>> {
    match outcome {
        Ok(clauses) => clauses@.map_values(|c: QueryClause| clause_text(c)),
        Err(_) => Seq::empty(),
    }
}

/// A row as a line: the cursor where it is the selected pane, the branch
/// and the label.
pub open spec fn line_text(row: RowView, active: bool) -> Seq<char> {
    (if active {
        seq!['❯', ' ']
    } else {
        seq![' ', ' ']
    }) + tree_prefix_text(row.ancestor_last, row.depth, row.is_last) + row.label
}

/// The line below the tree while a query is typed: the error of an invalid
/// query, else how many of the terminals match.
pub open spec fn summary_text(outcome: Result<Vec<QueryClause>, String>, matches: nat, total: nat) -> Seq<char> {
    match outcome {
        Err(e) => seq![' ', ' '] + e@,
        Ok(_) => seq![' ', ' '] + decimal(matches) + seq![' '] + (if matches == 1 {
            "match"@
        } else {
            "matches"@
        }) + " / "@ + decimal(total) + " terminals"@,
    }
}

/// One line of the tree as shown.
pub struct ListLine {
    pub text: Vec<char>,
    /// The line shows the selected pane.
    pub active: bool,
    /// The line matched or holds a match; other lines are dimmed.
    pub related: bool,
    /// For each character, whether it is part of a term of the query.
    pub highlighted: Vec<bool>,
}

/// The summary below the tree.
pub struct QuerySummary {
    pub text: String,
    pub is_error: bool,
}

/// What the list shows: the lines of the viewport, the summary where a
/// query is typed, and the line of the selected pane.
pub struct ListView {
    pub lines: Vec<ListLine>,
    pub summary: Option<QuerySummary>,
    pub cursor: Option<usize>,
}

impl TreeSelect {
    /// Whether row `r` shows the selected pane.
    pub open spec fn is_active(self, r: RowView) -> bool {
        match self.selected_item_view() {
            Some(i) => r.item_index == Some(i as nat),
            None => false,
        }
    }

    /// The rows in the viewport.
    pub open spec fn visible_rows(self) -> Seq<RowView> {
        self.rows_view().subrange(
            self.viewport_view() as int,
            (self.viewport_view() + self.visible_row_count()) as int,
        )
    }

    /// The texts of the clauses of the query.
    fn terms(&self) -> (res: Vec<Vec<char>>)
        ensures
            views(res@) == clause_texts(self.outcome_view()),
    {
        let mut res: Vec<Vec<char>> = Vec::new();
        match &self.outcome {
            Ok(clauses) => {
                let mut k: usize = 0;
                while k < clauses.len()
                    invariant
                        k <= clauses.len(),
                        self.outcome_view() == Ok::<Vec<QueryClause>, String>(*clauses),
                        views(res@) == clauses@.take(k as int).map_values(|c: QueryClause| clause_text(c)),
                    decreases clauses.len() - k,
                {
                    let shown = clauses[k].display_value();
                    assert(shown@ == clause_text(clauses@[k as int]));
                    let ghost before = res@;
                    res.push(shown);
                    assert(views(res@) =~= views(before).push(shown@));
                    k += 1;
                    assert(views(res@) =~= clauses@.take(k as int).map_values(|c: QueryClause| clause_text(c)));
                }
                assert(clauses@.take(clauses.len() as int) =~= clauses@);
            },
            Err(_) => {
                assert(views(res@) =~= Seq::<Seq<char>>::empty());
            },
        }
        res
    }

    /// The summary line.
    fn summary(&self) -> (res: QuerySummary)
        ensures
            res.text@ == summary_text(
                self.outcome_view(),
                self.candidates_view().len(),
                self.items_view().len(),
            ),
            res.is_error == self.outcome_view() is Err,
    {
        let mut text: Vec<char> = Vec::new();
        text.push(' ');
        text.push(' ');
        match &self.outcome {
            Err(e) => {
                push_all(&mut text, &chars_of(e.as_str()));
                QuerySummary { text: string_from_chars(&text), is_error: true }
            },
            Ok(_) => {
                let n = self.candidates.len();
                push_all(&mut text, &decimal_chars(n));
                text.push(' ');
                if n == 1 {
                    push_all(&mut text, &chars_of("match"));
                } else {
                    push_all(&mut text, &chars_of("matches"));
                }
                push_all(&mut text, &chars_of(" / "));
                push_all(&mut text, &decimal_chars(self.items.len()));
                push_all(&mut text, &chars_of(" terminals"));
                let ghost expected = summary_text(self.outcome, n as nat, self.items@.len());
                assert(text@ =~= expected);
                QuerySummary { text: string_from_chars(&text), is_error: false }
            },
        }
    }

    /// What the list shows.
    pub fn list_view(&self) -> (res: ListView)
        ensures
            res.lines@.len() == self.visible_row_count(),
            forall|k: int|
                0 <= k < res.lines@.len() ==> {
                    let r = self.visible_rows()[k];
                    let line = #[trigger] res.lines@[k];
                    let related = r.matched || r.contains_match;
                    &&& line.active == self.is_active(r)
                    &&& line.related == related
                    &&& line.text@ == line_text(r, self.is_active(r))
                    &&& line.highlighted@.len() == line.text@.len()
                    &&& forall|j: int|
                        0 <= j < line.text@.len() ==> line.highlighted@[j] == highlighted(
                            line.text@,
                            if related {
                                clause_texts(self.outcome_view())
                            } else {
                                Seq::empty()
                            },
                            j,
                        )
                },
            match res.summary {
                Some(s) => has_query(self.query_view()) && s.text@ == summary_text(
                    self.outcome_view(),
                    self.candidates_view().len(),
                    self.items_view().len(),
                ) && s.is_error == self.outcome_view() is Err,
                None => !has_query(self.query_view()),
            },
            match (self.selected_item_view(), res.cursor) {
                (Some(i), Some(c)) => first_row(self.visible_rows(), i as nat, 0) == Some(c as int),
                (Some(i), None) => first_row(self.visible_rows(), i as nat, 0) is None,
                (None, c) => c is None,
            },
    {
        proof {
            use_type_invariant(self);
        }
        let capacity = capacity_for(self.visible_lines, !is_blank_text(&self.query));
        let start = self.viewport_start;
        let remaining = self.rows.len().saturating_sub(start);
        let count = if remaining < capacity {
            remaining
        } else {
            capacity
        };
        let selected_item: Option<usize> = match self.selected {
            Some(p) => Some(self.candidates[p]),
            None => None,
        };
        let terms = self.terms();
        let no_terms: Vec<Vec<char>> = Vec::new();
        assert(views(no_terms@) =~= Seq::<Seq<char>>::empty());
        let ghost visible = self.visible_rows();
        assert(start + count <= self.rows@.len()) by {
            assert(row_views(self.rows@).len() == self.rows@.len());
        }
        let mut lines: Vec<ListLine> = Vec::new();
        let mut cursor: Option<usize> = None;
        let mut k: usize = 0;
        while k < count
            invariant
                k <= count,
                count == self.visible_row_count(),
                start == self.viewport_view(),
                start + count <= self.rows.len(),
                visible == self.visible_rows(),
                row_views(self.rows@) == self.rows_view(),
                selected_item == self.selected_item_view(),
                views(terms@) == clause_texts(self.outcome_view()),
                views(no_terms@) == Seq::<Seq<char>>::empty(),
                lines@.len() == k,
                forall|m: int|
                    0 <= m < k ==> {
                        let r = visible[m];
                        let line = #[trigger] lines@[m];
                        let related = r.matched || r.contains_match;
                        &&& line.active == self.is_active(r)
                        &&& line.related == related
                        &&& line.text@ == line_text(r, self.is_active(r))
                        &&& line.highlighted@.len() == line.text@.len()
                        &&& forall|j: int|
                            0 <= j < line.text@.len() ==> line.highlighted@[j] == highlighted(
                                line.text@,
                                if related {
                                    clause_texts(self.outcome_view())
                                } else {
                                    Seq::empty()
                                },
                                j,
                            )
                    },
                match (selected_item, cursor) {
                    (Some(i), Some(c)) => c < k && first_row(visible, i as nat, 0) == Some(c as int),
                    (Some(i), None) => first_row(visible, i as nat, 0) == first_row(visible, i as nat, k as int),
                    (None, c) => c is None,
                },
            decreases count - k,
        {
            let row = &self.rows[start + k];
            assert(visible[k as int] == row.view_row());
            let active = match selected_item {
                Some(i) => match row.item_index {
                    Some(j) => i == j,
                    None => false,
                },
                None => false,
            };
            let mut text: Vec<char> = Vec::new();
            if active {
                text.push('❯');
            } else {
                text.push(' ');
            }
            text.push(' ');
            push_all(&mut text, &tree_prefix(&row.ancestor_last, row.depth, row.is_last));
            push_all(&mut text, &row.label);
            let related = row.matched || row.contains_match;
            let highlighted = if related {
                highlight(&text, &terms)
            } else {
                highlight(&text, &no_terms)
            };
            if active && cursor.is_none() {
                cursor = Some(k);
            }
            let ghost rv = visible[k as int];
            assert(text@ =~= line_text(rv, self.is_active(rv)));
            lines.push(ListLine { text, active, related, highlighted });
            k += 1;
        }
        let summary = if is_blank_text(&self.query) {
            None
        } else {
            Some(self.summary())
        };
        ListView { lines, summary, cursor }
    }
}

} // verus!
