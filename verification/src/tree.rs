//! The terminal tree: applications, their windows, their tabs and the panes
//! in them, flattened into rows in order of first appearance.
use vstd::prelude::*;

use crate::order::{distinct_order, lemma_distinct_order_push};
use crate::search::{pane_label_text, TreeSelectItem};
use crate::text::{chars_eq, chars_of, decimal, decimal_chars, lower, lowercase, push_all, views};

verus! {

/// The key that groups panes by application: its name in lower case.
pub open spec fn app_key(item: TreeSelectItem) -> Seq<char> {
    lower(item.application@)
}

/// The positions of the first `n` items that satisfy `p`, in order.
pub open spec fn members(items: Seq<TreeSelectItem>, p: spec_fn(TreeSelectItem) -> bool, n: int) -> Seq<int>
    decreases n,
{
    if n <= 0 {
        Seq::empty()
    } else {
        let r = members(items, p, n - 1);
        if p(items[n - 1]) {
            r.push(n - 1)
        } else {
            r
        }
    }
}

/// The items of application `a`, narrowed to window `w` and tab `t` where
/// they are given.
pub open spec fn in_group(a: Seq<char>, w: Option<usize>, t: Option<usize>) -> spec_fn(TreeSelectItem) -> bool {
    |it: TreeSelectItem|
        app_key(it) == a && (match w {
            Some(x) => it.window_index == x,
            None => true,
        }) && (match t {
            Some(x) => it.tab_index == x,
            None => true,
        })
}

/// The applications, in order of first appearance.
pub open spec fn apps_of(items: Seq<TreeSelectItem>) -> Seq<Seq<char>> {
    distinct_order(items.map_values(|it: TreeSelectItem| app_key(it)))
}

/// The windows of application `a`, in order of first appearance.
pub open spec fn windows_of(items: Seq<TreeSelectItem>, a: Seq<char>) -> Seq<usize> {
    distinct_order(
        members(items, in_group(a, None, None), items.len() as int).map_values(|i: int| items[i].window_index),
    )
}

/// The tabs of window `w` of application `a`, in order of first
/// appearance.
pub open spec fn tabs_of(items: Seq<TreeSelectItem>, a: Seq<char>, w: usize) -> Seq<usize> {
    distinct_order(
        members(items, in_group(a, Some(w), None), items.len() as int).map_values(|i: int| items[i].tab_index),
    )
}

/// The panes of tab `t` of window `w` of application `a`, in item order.
pub open spec fn panes_of(items: Seq<TreeSelectItem>, a: Seq<char>, w: usize, t: usize) -> Seq<int> {
    members(items, in_group(a, Some(w), Some(t)), items.len() as int)
}

/// Some of the items at `idxs` matched the query.
pub open spec fn any_matched(matches: Seq<bool>, idxs: Seq<int>) -> bool {
    exists|k: int| 0 <= k < idxs.len() && matches[#[trigger] idxs[k]]
}

/// What one row of the tree shows and allows.
pub struct RowView {
    pub depth: nat,
    pub label: Seq<char>,
    pub selectable: bool,
    pub matched: bool,
    pub contains_match: bool,
    pub item_index: Option<nat>,
    pub root_index: nat,
    pub ancestor_last: Seq<bool>,
    pub is_last: bool,
}

/// A row for an application, window or tab.
pub open spec fn branch_row(
    depth: nat,
    label: Seq<char>,
    contains_match: bool,
    root: nat,
    ancestor_last: Seq<bool>,
    is_last: bool,
) -> RowView {
    RowView {
        depth,
        label,
        selectable: false,
        matched: false,
        contains_match,
        item_index: None,
        root_index: root,
        ancestor_last,
        is_last,
    }
}

/// The row of pane `i`: selectable exactly when it matched.
pub open spec fn pane_row(
    items: Seq<TreeSelectItem>,
    matches: Seq<bool>,
    i: int,
    root: nat,
    ancestor_last: Seq<bool>,
    is_last: bool,
) -> RowView {
    RowView {
        depth: 3,
        label: pane_label_text(items[i].pane_index as nat, items[i].name@, items[i].working_directory@),
        selectable: matches[i],
        matched: matches[i],
        contains_match: matches[i],
        item_index: Some(i as nat),
        root_index: root,
        ancestor_last,
        is_last,
    }
}

/// The rows of panes `panes[j..]`.
pub open spec fn pane_rows_from(
    items: Seq<TreeSelectItem>,
    matches: Seq<bool>,
    panes: Seq<int>,
    j: int,
    ancestor_last: Seq<bool>,
    root: nat,
) -> Seq<RowView>
    decreases panes.len() - j,
{
    if j < 0 || j >= panes.len() {
        Seq::empty()
    } else {
        seq![pane_row(items, matches, panes[j], root, ancestor_last, j == panes.len() - 1)]
            + pane_rows_from(items, matches, panes, j + 1, ancestor_last, root)
    }
}

/// The rows of tabs `tabs[j..]` of window `w` of application `a`, each
/// followed by its panes.
pub open spec fn tab_rows_from(
    items: Seq<TreeSelectItem>,
    matches: Seq<bool>,
    a: Seq<char>,
    w: usize,
    tabs: Seq<usize>,
    j: int,
    ancestor_last: Seq<bool>,
    root: nat,
) -> Seq<RowView>
    decreases tabs.len() - j,
{
    if j < 0 || j >= tabs.len() {
        Seq::empty()
    } else {
        let last = j == tabs.len() - 1;
        let panes = panes_of(items, a, w, tabs[j]);
        seq![
            branch_row(
                2,
                "Tab "@ + decimal(tabs[j] as nat),
                any_matched(matches, panes),
                root,
                ancestor_last,
                last,
            ),
        ] + pane_rows_from(items, matches, panes, 0, ancestor_last.push(last), root)
            + tab_rows_from(items, matches, a, w, tabs, j + 1, ancestor_last, root)
    }
}

/// The rows of windows `windows[j..]` of application `a`, each followed by
/// its tabs.
pub open spec fn window_rows_from(
    items: Seq<TreeSelectItem>,
    matches: Seq<bool>,
    a: Seq<char>,
    windows: Seq<usize>,
    j: int,
    ancestor_last: Seq<bool>,
    root: nat,
) -> Seq<RowView>
    decreases windows.len() - j,
{
    if j < 0 || j >= windows.len() {
        Seq::empty()
    } else {
        let last = j == windows.len() - 1;
        let w = windows[j];
        seq![
            branch_row(
                1,
                "Window "@ + decimal(w as nat),
                any_matched(matches, members(items, in_group(a, Some(w), None), items.len() as int)),
                root,
                ancestor_last,
                last,
            ),
        ] + tab_rows_from(items, matches, a, w, tabs_of(items, a, w), 0, ancestor_last.push(last), root)
            + window_rows_from(items, matches, a, windows, j + 1, ancestor_last, root)
    }
}

/// The rows of application `a` starting at row `root`: the application,
/// then its windows.
pub open spec fn app_block(items: Seq<TreeSelectItem>, matches: Seq<bool>, a: Seq<char>, last: bool, root: nat) -> Seq<RowView> {
    let idxs = members(items, in_group(a, None, None), items.len() as int);
    seq![branch_row(0, items[idxs[0]].application@, any_matched(matches, idxs), root, Seq::empty(), last)]
        + window_rows_from(items, matches, a, windows_of(items, a), 0, seq![last], root)
}

/// The rows of applications `apps[j..]`, the first starting at row `start`.
pub open spec fn app_rows_from(
    items: Seq<TreeSelectItem>,
    matches: Seq<bool>,
    apps: Seq<Seq<char>>,
    j: int,
    start: nat,
) -> Seq<RowView>
    decreases apps.len() - j,
{
    if j < 0 || j >= apps.len() {
        Seq::empty()
    } else {
        let block = app_block(items, matches, apps[j], j == apps.len() - 1, start);
        block + app_rows_from(items, matches, apps, j + 1, start + block.len())
    }
}

/// The rows of the whole tree: every application in order of first
/// appearance, under it its windows, under each its tabs, under each its
/// panes; each pane marked with whether it matched.
pub open spec fn tree_rows(items: Seq<TreeSelectItem>, matches: Seq<bool>) -> Seq<RowView> {
    app_rows_from(items, matches, apps_of(items), 0, 0)
}

/// One row of the terminal tree.
pub struct TreeSelectRow {
    pub depth: usize,
    pub label: Vec<char>,
    pub selectable: bool,
    pub matched: bool,
    pub contains_match: bool,
    pub item_index: Option<usize>,
    pub root_index: usize,
    pub ancestor_last: Vec<bool>,
    pub is_last: bool,
}

impl TreeSelectRow {
    pub open spec fn view_row(self) -> RowView {
        RowView {
            depth: self.depth as nat,
            label: self.label@,
            selectable: self.selectable,
            matched: self.matched,
            contains_match: self.contains_match,
            item_index: match self.item_index {
                Some(i) => Some(i as nat),
                None => None,
            },
            root_index: self.root_index as nat,
            ancestor_last: self.ancestor_last@,
            is_last: self.is_last,
        }
    }
}

pub open spec fn row_views(rows: Seq<TreeSelectRow>) -> Seq<RowView> {
    rows.map_values(|r: TreeSelectRow| r.view_row())
}


/// Indices as integers.
pub open spec fn ints(v: Seq<usize>) -> Seq<int> {
    v.map_values(|i: usize| i as int)
}

fn copy_flags(v: &Vec<bool>) -> (res: Vec<bool>)
    ensures
        res@ == v@,
{
    let mut res: Vec<bool> = Vec::new();
    let mut i: usize = 0;
    while i < v.len()
        invariant
            i <= v.len(),
            res@ == v@.take(i as int),
        decreases v.len() - i,
    {
        res.push(v[i]);
        i += 1;
        assert(res@ =~= v@.take(i as int));
    }
    assert(v@.take(v.len() as int) =~= v@);
    res
}

/// The grouping key of every item, in item order.
fn app_keys(items: &Vec<TreeSelectItem>) -> (keys: Vec<Vec<char>>)
    ensures
        keys.len() == items.len(),
        forall|i: int| 0 <= i < items.len() ==> (#[trigger] keys@[i])@ == app_key(items@[i]),
{
    let mut keys: Vec<Vec<char>> = Vec::new();
    let mut i: usize = 0;
    while i < items.len()
        invariant
            i <= items.len(),
            keys.len() == i,
            forall|k: int| 0 <= k < i ==> (#[trigger] keys@[k])@ == app_key(items@[k]),
        decreases items.len() - i,
    {
        keys.push(lowercase(&chars_of(items[i].application.as_str())));
        i += 1;
    }
    keys
}

/// The distinct keys, in order of first appearance.
fn distinct_keys(keys: &Vec<Vec<char>>) -> (res: Vec<Vec<char>>)
    ensures
        views(res@) == distinct_order(views(keys@)),
        forall|m: int|
            0 <= m < res.len() ==> exists|i: int| 0 <= i < keys.len() && keys@[i]@ == (#[trigger] res@[m])@,
{
    let mut res: Vec<Vec<char>> = Vec::new();
    let mut i: usize = 0;
    while i < keys.len()
        invariant
            i <= keys.len(),
            views(res@) == distinct_order(views(keys@).take(i as int)),
            forall|m: int|
                0 <= m < res.len() ==> exists|j: int| 0 <= j < keys.len() && keys@[j]@ == (#[trigger] res@[m])@,
        decreases keys.len() - i,
    {
        let key = &keys[i];
        let mut found = false;
        let mut k: usize = 0;
        while k < res.len() && !found
            invariant
                k <= res.len(),
                found ==> views(res@).contains(key@),
                !found ==> forall|m: int| 0 <= m < k ==> res@[m]@ != key@,
            decreases res.len() - k,
        {
            if chars_eq(&res[k], key) {
                found = true;
                assert(views(res@)[k as int] == key@);
            }
            k += 1;
        }
        proof {
            if !found {
                assert forall|m: int| 0 <= m < views(res@).len() implies views(res@)[m] != key@ by {
                    assert(views(res@)[m] == res@[m]@);
                }
            }
            assert(views(keys@).take(i + 1) =~= views(keys@).take(i as int).push(key@));
            lemma_distinct_order_push(views(keys@).take(i as int), key@);
        }
        if !found {
            let mut copy: Vec<char> = Vec::new();
            push_all(&mut copy, key);
            let ghost before = res@;
            res.push(copy);
            proof {
                assert(views(res@) =~= views(before).push(key@));
                assert(res@[res.len() - 1]@ == keys@[i as int]@);
            }
        }
        i += 1;
    }
    assert(views(keys@).take(keys.len() as int) =~= views(keys@));
    res
}


/// Whether `it` belongs to application `a`, window `w` and tab `t`.
fn in_group_exec(it: &TreeSelectItem, key: &Vec<char>, a: &[char], w: Option<usize>, t: Option<usize>) -> (res: bool)
    requires
        key@ == app_key(*it),
    ensures
        res == in_group(a@, w, t)(*it),
{
    let window_ok = match w {
        Some(x) => it.window_index == x,
        None => true,
    };
    let tab_ok = match t {
        Some(x) => it.tab_index == x,
        None => true,
    };
    chars_eq(key, a) && window_ok && tab_ok
}

/// The positions of the items of application `a`, narrowed to window `w`
/// and tab `t` where they are given, in item order.
fn group_members(
    items: &Vec<TreeSelectItem>,
    keys: &Vec<Vec<char>>,
    a: &[char],
    w: Option<usize>,
    t: Option<usize>,
) -> (res: Vec<usize>)
    requires
        keys.len() == items.len(),
        forall|i: int| 0 <= i < items.len() ==> (#[trigger] keys@[i])@ == app_key(items@[i]),
    ensures
        ints(res@) == members(items@, in_group(a@, w, t), items.len() as int),
        forall|k: int| 0 <= k < res.len() ==> res@[k] < items.len(),
        res.len() == 0 ==> forall|i: int|
            0 <= i < items.len() ==> !in_group(a@, w, t)(#[trigger] items@[i]),
{
    let mut res: Vec<usize> = Vec::new();
    let mut i: usize = 0;
    while i < items.len()
        invariant
            i <= items.len(),
            keys.len() == items.len(),
            forall|j: int| 0 <= j < items.len() ==> (#[trigger] keys@[j])@ == app_key(items@[j]),
            ints(res@) == members(items@, in_group(a@, w, t), i as int),
            forall|k: int| 0 <= k < res.len() ==> res@[k] < i,
            res.len() == 0 ==> forall|j: int| 0 <= j < i ==> !in_group(a@, w, t)(#[trigger] items@[j]),
        decreases items.len() - i,
    {
        let hit = in_group_exec(&items[i], &keys[i], a, w, t);
        let ghost before = res@;
        if hit {
            res.push(i);
            assert(ints(res@) =~= ints(before).push(i as int));
        }
        i += 1;
    }
    res
}

/// The distinct values, in order of first appearance.
fn distinct_values(vals: &Vec<usize>) -> (res: Vec<usize>)
    ensures
        res@ == distinct_order(vals@),
{
    let mut res: Vec<usize> = Vec::new();
    let mut i: usize = 0;
    while i < vals.len()
        invariant
            i <= vals.len(),
            res@ == distinct_order(vals@.take(i as int)),
        decreases vals.len() - i,
    {
        let v = vals[i];
        let mut found = false;
        let mut k: usize = 0;
        while k < res.len() && !found
            invariant
                k <= res.len(),
                found ==> res@.contains(v),
                !found ==> forall|m: int| 0 <= m < k ==> res@[m] != v,
            decreases res.len() - k,
        {
            if res[k] == v {
                found = true;
            }
            k += 1;
        }
        proof {
            assert(vals@.take(i + 1) =~= vals@.take(i as int).push(v));
            lemma_distinct_order_push(vals@.take(i as int), v);
        }
        if !found {
            res.push(v);
        }
        i += 1;
    }
    assert(vals@.take(vals.len() as int) =~= vals@);
    res
}

/// The window of each of the items at `idxs`.
fn window_values(items: &Vec<TreeSelectItem>, idxs: &Vec<usize>) -> (res: Vec<usize>)
    requires
        forall|k: int| 0 <= k < idxs.len() ==> idxs@[k] < items.len(),
    ensures
        res@ == ints(idxs@).map_values(|i: int| items@[i].window_index),
{
    let mut res: Vec<usize> = Vec::new();
    let mut k: usize = 0;
    while k < idxs.len()
        invariant
            k <= idxs.len(),
            forall|j: int| 0 <= j < idxs.len() ==> idxs@[j] < items.len(),
            res@ == ints(idxs@.take(k as int)).map_values(|i: int| items@[i].window_index),
        decreases idxs.len() - k,
    {
        res.push(items[idxs[k]].window_index);
        k += 1;
        assert(res@ =~= ints(idxs@.take(k as int)).map_values(|i: int| items@[i].window_index));
    }
    assert(idxs@.take(idxs.len() as int) =~= idxs@);
    res
}

/// The tab of each of the items at `idxs`.
fn tab_values(items: &Vec<TreeSelectItem>, idxs: &Vec<usize>) -> (res: Vec<usize>)
    requires
        forall|k: int| 0 <= k < idxs.len() ==> idxs@[k] < items.len(),
    ensures
        res@ == ints(idxs@).map_values(|i: int| items@[i].tab_index),
{
    let mut res: Vec<usize> = Vec::new();
    let mut k: usize = 0;
    while k < idxs.len()
        invariant
            k <= idxs.len(),
            forall|j: int| 0 <= j < idxs.len() ==> idxs@[j] < items.len(),
            res@ == ints(idxs@.take(k as int)).map_values(|i: int| items@[i].tab_index),
        decreases idxs.len() - k,
    {
        res.push(items[idxs[k]].tab_index);
        k += 1;
        assert(res@ =~= ints(idxs@.take(k as int)).map_values(|i: int| items@[i].tab_index));
    }
    assert(idxs@.take(idxs.len() as int) =~= idxs@);
    res
}

/// Whether any of the items at `idxs` matched.
fn any_member_matched(matches: &Vec<bool>, idxs: &Vec<usize>) -> (res: bool)
    requires
        forall|k: int| 0 <= k < idxs.len() ==> idxs@[k] < matches.len(),
    ensures
        res == any_matched(matches@, ints(idxs@)),
{
    let mut k: usize = 0;
    while k < idxs.len()
        invariant
            k <= idxs.len(),
            forall|j: int| 0 <= j < idxs.len() ==> idxs@[j] < matches.len(),
            forall|j: int| 0 <= j < k ==> !matches@[#[trigger] ints(idxs@)[j]],
        decreases idxs.len() - k,
    {
        if matches[idxs[k]] {
            assert(matches@[ints(idxs@)[k as int]]);
            return true;
        }
        k += 1;
    }
    false
}


proof fn lemma_row_views_push(rows: Seq<TreeSelectRow>, r: TreeSelectRow)
    ensures
        row_views(rows.push(r)) == row_views(rows).push(r.view_row()),
{
    assert(row_views(rows.push(r)) =~= row_views(rows).push(r.view_row()));
}

/// Appends the rows of the panes at `panes`.
fn push_pane_rows(
    items: &Vec<TreeSelectItem>,
    matches: &Vec<bool>,
    panes: &Vec<usize>,
    ancestor_last: &Vec<bool>,
    root: usize,
    rows: &mut Vec<TreeSelectRow>,
)
    requires
        matches.len() == items.len(),
        forall|k: int| 0 <= k < panes.len() ==> panes@[k] < items.len(),
    ensures
        row_views(final(rows)@) == row_views(old(rows)@) + pane_rows_from(
            items@,
            matches@,
            ints(panes@),
            0,
            ancestor_last@,
            root as nat,
        ),
{
    let ghost start = row_views(rows@);
    let ghost total = pane_rows_from(items@, matches@, ints(panes@), 0, ancestor_last@, root as nat);
    let mut j: usize = 0;
    while j < panes.len()
        invariant
            j <= panes.len(),
            matches.len() == items.len(),
            forall|k: int| 0 <= k < panes.len() ==> panes@[k] < items.len(),
            total == pane_rows_from(items@, matches@, ints(panes@), 0, ancestor_last@, root as nat),
            row_views(rows@) + pane_rows_from(
                items@,
                matches@,
                ints(panes@),
                j as int,
                ancestor_last@,
                root as nat,
            ) == start + total,
        decreases panes.len() - j,
    {
        let i = panes[j];
        let row = TreeSelectRow {
            depth: 3,
            label: items[i].pane_label(),
            selectable: matches[i],
            matched: matches[i],
            contains_match: matches[i],
            item_index: Some(i),
            root_index: root,
            ancestor_last: copy_flags(ancestor_last),
            is_last: j + 1 == panes.len(),
        };
        let ghost before = row_views(rows@);
        let ghost rest = pane_rows_from(items@, matches@, ints(panes@), j + 1, ancestor_last@, root as nat);
        proof {
            assert(ints(panes@)[j as int] == i as int);
            assert(row.view_row() == pane_row(
                items@,
                matches@,
                i as int,
                root as nat,
                ancestor_last@,
                j == panes.len() - 1,
            ));
            lemma_row_views_push(rows@, row);
        }
        rows.push(row);
        j += 1;
        proof {
            assert(row_views(rows@) + rest =~= before + pane_rows_from(
                items@,
                matches@,
                ints(panes@),
                j - 1,
                ancestor_last@,
                root as nat,
            ));
        }
    }
    assert(row_views(rows@) =~= start + total);
}

/// A row for an application, window or tab.
fn branch(
    depth: usize,
    label: Vec<char>,
    contains_match: bool,
    root: usize,
    ancestor_last: &Vec<bool>,
    is_last: bool,
) -> (res: TreeSelectRow)
    ensures
        res.view_row() == branch_row(
            depth as nat,
            label@,
            contains_match,
            root as nat,
            ancestor_last@,
            is_last,
        ),
{
    TreeSelectRow {
        depth,
        label,
        selectable: false,
        matched: false,
        contains_match,
        item_index: None,
        root_index: root,
        ancestor_last: copy_flags(ancestor_last),
        is_last,
    }
}

/// `<word><n>`, such as `Tab 2`.
fn numbered(word: &str, n: usize) -> (res: Vec<char>)
    ensures
        res@ == word@ + decimal(n as nat),
{
    let mut label = chars_of(word);
    push_all(&mut label, &decimal_chars(n));
    label
}


/// Appends the rows of tabs `tabs` of window `w` of application `a`, each
/// followed by its panes.
fn push_tab_rows(
    items: &Vec<TreeSelectItem>,
    keys: &Vec<Vec<char>>,
    matches: &Vec<bool>,
    a: &[char],
    w: usize,
    tabs: &Vec<usize>,
    ancestor_last: &Vec<bool>,
    root: usize,
    rows: &mut Vec<TreeSelectRow>,
)
    requires
        matches.len() == items.len(),
        keys.len() == items.len(),
        forall|i: int| 0 <= i < items.len() ==> (#[trigger] keys@[i])@ == app_key(items@[i]),
    ensures
        row_views(final(rows)@) == row_views(old(rows)@) + tab_rows_from(
            items@,
            matches@,
            a@,
            w,
            tabs@,
            0,
            ancestor_last@,
            root as nat,
        ),
{
    let ghost start = row_views(rows@);
    let ghost total = tab_rows_from(items@, matches@, a@, w, tabs@, 0, ancestor_last@, root as nat);
    let mut j: usize = 0;
    while j < tabs.len()
        invariant
            j <= tabs.len(),
            matches.len() == items.len(),
            keys.len() == items.len(),
            forall|i: int| 0 <= i < items.len() ==> (#[trigger] keys@[i])@ == app_key(items@[i]),
            total == tab_rows_from(items@, matches@, a@, w, tabs@, 0, ancestor_last@, root as nat),
            row_views(rows@) + tab_rows_from(
                items@,
                matches@,
                a@,
                w,
                tabs@,
                j as int,
                ancestor_last@,
                root as nat,
            ) == start + total,
        decreases tabs.len() - j,
    {
        let t = tabs[j];
        let last = j + 1 == tabs.len();
        let panes = group_members(items, keys, a, Some(w), Some(t));
        let contains_match = any_member_matched(matches, &panes);
        let row = branch(2, numbered("Tab ", t), contains_match, root, ancestor_last, last);
        let ghost before = row_views(rows@);
        let ghost rest = tab_rows_from(items@, matches@, a@, w, tabs@, j + 1, ancestor_last@, root as nat);
        proof {
            lemma_row_views_push(rows@, row);
        }
        rows.push(row);
        let mut below = copy_flags(ancestor_last);
        below.push(last);
        push_pane_rows(items, matches, &panes, &below, root, rows);
        j += 1;
        proof {
            assert(row_views(rows@) + rest =~= before + tab_rows_from(
                items@,
                matches@,
                a@,
                w,
                tabs@,
                j - 1,
                ancestor_last@,
                root as nat,
            ));
        }
    }
    assert(row_views(rows@) =~= start + total);
}

/// Appends the rows of windows `windows` of application `a`, each followed
/// by its tabs.
fn push_window_rows(
    items: &Vec<TreeSelectItem>,
    keys: &Vec<Vec<char>>,
    matches: &Vec<bool>,
    a: &[char],
    windows: &Vec<usize>,
    ancestor_last: &Vec<bool>,
    root: usize,
    rows: &mut Vec<TreeSelectRow>,
)
    requires
        matches.len() == items.len(),
        keys.len() == items.len(),
        forall|i: int| 0 <= i < items.len() ==> (#[trigger] keys@[i])@ == app_key(items@[i]),
    ensures
        row_views(final(rows)@) == row_views(old(rows)@) + window_rows_from(
            items@,
            matches@,
            a@,
            windows@,
            0,
            ancestor_last@,
            root as nat,
        ),
{
    let ghost start = row_views(rows@);
    let ghost total = window_rows_from(items@, matches@, a@, windows@, 0, ancestor_last@, root as nat);
    let mut j: usize = 0;
    while j < windows.len()
        invariant
            j <= windows.len(),
            matches.len() == items.len(),
            keys.len() == items.len(),
            forall|i: int| 0 <= i < items.len() ==> (#[trigger] keys@[i])@ == app_key(items@[i]),
            total == window_rows_from(items@, matches@, a@, windows@, 0, ancestor_last@, root as nat),
            row_views(rows@) + window_rows_from(
                items@,
                matches@,
                a@,
                windows@,
                j as int,
                ancestor_last@,
                root as nat,
            ) == start + total,
        decreases windows.len() - j,
    {
        let w = windows[j];
        let last = j + 1 == windows.len();
        let idxs = group_members(items, keys, a, Some(w), None);
        let contains_match = any_member_matched(matches, &idxs);
        let row = branch(1, numbered("Window ", w), contains_match, root, ancestor_last, last);
        let tabs = distinct_values(&tab_values(items, &idxs));
        let ghost before = row_views(rows@);
        let ghost rest = window_rows_from(items@, matches@, a@, windows@, j + 1, ancestor_last@, root as nat);
        proof {
            lemma_row_views_push(rows@, row);
            assert(tabs@ == tabs_of(items@, a@, w));
        }
        rows.push(row);
        let mut below = copy_flags(ancestor_last);
        below.push(last);
        push_tab_rows(items, keys, matches, a, w, &tabs, &below, root, rows);
        j += 1;
        proof {
            assert(row_views(rows@) + rest =~= before + window_rows_from(
                items@,
                matches@,
                a@,
                windows@,
                j - 1,
                ancestor_last@,
                root as nat,
            ));
        }
    }
    assert(row_views(rows@) =~= start + total);
}


/// Appends the rows of applications `apps`, each followed by its windows.
fn push_app_rows(
    items: &Vec<TreeSelectItem>,
    keys: &Vec<Vec<char>>,
    matches: &Vec<bool>,
    apps: &Vec<Vec<char>>,
    rows: &mut Vec<TreeSelectRow>,
)
    requires
        matches.len() == items.len(),
        keys.len() == items.len(),
        forall|i: int| 0 <= i < items.len() ==> (#[trigger] keys@[i])@ == app_key(items@[i]),
        forall|m: int|
            0 <= m < apps.len() ==> exists|i: int| 0 <= i < keys.len() && keys@[i]@ == (#[trigger] apps@[m])@,
    ensures
        row_views(final(rows)@) == row_views(old(rows)@) + app_rows_from(
            items@,
            matches@,
            views(apps@),
            0,
            old(rows).len() as nat,
        ),
{
    let ghost start = row_views(rows@);
    let ghost total = app_rows_from(items@, matches@, views(apps@), 0, rows.len() as nat);
    let mut j: usize = 0;
    while j < apps.len()
        invariant
            j <= apps.len(),
            matches.len() == items.len(),
            keys.len() == items.len(),
            forall|i: int| 0 <= i < items.len() ==> (#[trigger] keys@[i])@ == app_key(items@[i]),
            forall|m: int|
                0 <= m < apps.len() ==> exists|i: int| 0 <= i < keys.len() && keys@[i]@ == (#[trigger] apps@[m])@,
            row_views(rows@) + app_rows_from(
                items@,
                matches@,
                views(apps@),
                j as int,
                rows.len() as nat,
            ) == start + total,
        decreases apps.len() - j,
    {
        let a = &apps[j];
        let root = rows.len();
        let last = j + 1 == apps.len();
        let idxs = group_members(items, keys, a, None, None);
        proof {
            let i = choose|i: int| 0 <= i < keys.len() && keys@[i]@ == apps@[j as int]@;
            assert(in_group(a@, None, None)(items@[i]));
        }
        let first = idxs[0];
        let contains_match = any_member_matched(matches, &idxs);
        let row = branch(0, chars_of(items[first].application.as_str()), contains_match, root, &Vec::new(), last);
        let windows = distinct_values(&window_values(items, &idxs));
        let ghost before = row_views(rows@);
        let ghost block = app_block(items@, matches@, a@, last, root as nat);
        let ghost rest = app_rows_from(items@, matches@, views(apps@), j + 1, (root + block.len()) as nat);
        proof {
            lemma_row_views_push(rows@, row);
            assert(views(apps@)[j as int] == a@);
            assert(ints(idxs@)[0] == first as int);
            assert(windows@ == windows_of(items@, a@));
            assert(row.view_row().ancestor_last =~= Seq::<bool>::empty());
        }
        rows.push(row);
        let mut below: Vec<bool> = Vec::new();
        below.push(last);
        push_window_rows(items, keys, matches, a, &windows, &below, root, rows);
        j += 1;
        proof {
            assert(below@ =~= seq![last]);
            assert(row_views(rows@) =~= before + block);
            assert(rows.len() == root + block.len()) by {
                assert(row_views(rows@).len() == rows.len());
            }
            assert(row_views(rows@) + rest =~= before + app_rows_from(
                items@,
                matches@,
                views(apps@),
                j - 1,
                root as nat,
            ));
        }
    }
    assert(row_views(rows@) =~= start + total);
}

/// The rows of the terminal tree for `items`, each pane marked by `matches`.
pub fn create_rows(items: &Vec<TreeSelectItem>, matches: &Vec<bool>) -> (rows: Vec<TreeSelectRow>)
    requires
        matches.len() == items.len(),
    ensures
        row_views(rows@) == tree_rows(items@, matches@),
{
    let keys = app_keys(items);
    let apps = distinct_keys(&keys);
    assert(views(keys@) =~= items@.map_values(|it: TreeSelectItem| app_key(it)));
    let mut rows: Vec<TreeSelectRow> = Vec::new();
    push_app_rows(items, &keys, matches, &apps, &mut rows);
    assert(row_views(Seq::<TreeSelectRow>::empty()) =~= Seq::<RowView>::empty());
    assert(row_views(rows@) =~= tree_rows(items@, matches@));
    rows
}

} // verus!
