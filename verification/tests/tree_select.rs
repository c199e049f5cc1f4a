use convey::search::TreeSelectItem;
use convey::select::NavigationDirection;
use convey::tree_select::TreeSelect;

fn item(key: &str, application: &str, window: usize, tab: usize, pane: usize, name: &str, cwd: &str) -> TreeSelectItem {
    TreeSelectItem {
        key: key.to_owned(),
        application: application.to_owned(),
        window_index: window,
        tab_index: tab,
        pane_index: pane,
        name: name.to_owned(),
        working_directory: cwd.to_owned(),
        id: key.to_owned(),
    }
}

fn items() -> Vec<TreeSelectItem> {
    vec![
        item("ghostty", "Ghostty", 1, 1, 1, "shell", "/workspace"),
        item("cargo", "iTerm2", 1, 1, 1, "cargo", "/workspace"),
        item("vim", "iTerm2", 1, 2, 2, "vim", "/src/convey"),
    ]
}

fn type_query(select: &mut TreeSelect, query: &str) {
    let chars: Vec<char> = query.chars().collect();
    select.set_query(&chars);
}

/// The list as it is drawn: the visible rows, then the summary line.
fn rendered(select: &TreeSelect) -> String {
    let view = select.list_view();
    let mut lines: Vec<String> = view.lines.iter().map(|line| line.text.iter().collect()).collect();
    if let Some(summary) = view.summary {
        lines.push(summary.text);
    }
    lines.join("\n")
}

fn row_of(select: &TreeSelect, item_index: usize) -> usize {
    select.rows().iter().position(|row| row.item_index == Some(item_index)).unwrap()
}

#[test]
fn renders_the_terminal_hierarchy() {
    let mut select = TreeSelect::new(20);
    select.replace_items(items());

    assert_eq!(
        rendered(&select),
        [
            "  Ghostty",
            "  └─ Window 1",
            "     └─ Tab 1",
            "❯       └─ Pane 1 · shell · /workspace",
            "  iTerm2",
            "  └─ Window 1",
            "     ├─ Tab 1",
            "     │  └─ Pane 1 · cargo · /workspace",
            "     └─ Tab 2",
            "        └─ Pane 2 · vim · /src/convey",
        ]
        .join("\n")
    );
}

#[test]
fn searches_multiple_qualified_fields_with_and_semantics() {
    let mut select = TreeSelect::new(20);
    select.replace_items(items());

    type_query(&mut select, "app:iterm2 t:2 name:vim");

    assert_eq!(select.selected_key(), Some("vim"));
    assert_eq!(*select.candidates(), vec![2]);
    assert!(rendered(&select).contains("1 match / 3 terminals"));
}

#[test]
fn searches_unqualified_terms_across_fields_with_and_semantics() {
    let mut select = TreeSelect::new(20);
    select.replace_items(items());

    type_query(&mut select, "iterm2 convey");

    assert_eq!(select.selected_key(), Some("vim"));
    assert_eq!(*select.candidates(), vec![2]);
}

#[test]
fn searches_numeric_indexes_by_exact_value() {
    let mut select = TreeSelect::new(20);
    select.replace_items(vec![
        item("one", "Ghostty", 1, 1, 1, "one", "/workspace"),
        item("ten", "Ghostty", 10, 1, 1, "ten", "/workspace"),
    ]);

    type_query(&mut select, "w:1");

    assert_eq!(select.selected_key(), Some("one"));
    assert_eq!(*select.candidates(), vec![0]);
}

#[test]
fn moves_only_between_matching_panes() {
    let mut select = TreeSelect::new(20);
    select.replace_items(items());
    type_query(&mut select, "app:iterm2");

    assert_eq!(select.selected_key(), Some("cargo"));
    select.navigate(NavigationDirection::Next);
    assert_eq!(select.selected_key(), Some("vim"));
    select.navigate(NavigationDirection::Next);
    assert_eq!(select.selected_key(), Some("vim"));
    select.navigate(NavigationDirection::Previous);
    assert_eq!(select.selected_key(), Some("cargo"));
}

#[test]
fn cursor_move_recenters_a_manually_scrolled_viewport() {
    let mut select = TreeSelect::new(4);
    select.replace_items(items());

    for _ in 0..4 {
        select.scroll_forward();
    }

    assert_eq!(select.viewport_start(), 4);
    assert_eq!(select.selected_key(), Some("ghostty"));

    select.navigate(NavigationDirection::Next);

    assert_eq!(select.viewport_start(), 5);
    assert_eq!(select.selected_key(), Some("cargo"));
    assert_eq!(select.list_view().cursor, Some(2));

    select.navigate(NavigationDirection::Next);

    assert_eq!(select.viewport_start(), 6);
    assert_eq!(select.selected_key(), Some("vim"));
}

#[test]
fn selects_a_pane_at_its_viewport_relative_row() {
    let mut select = TreeSelect::new(4);
    select.replace_items(items());
    for _ in 0..4 {
        select.scroll_forward();
    }

    assert!(select.select_at(3));

    assert_eq!(select.selected_key(), Some("cargo"));
}

#[test]
fn searches_quoted_values() {
    let mut select = TreeSelect::new(20);
    select.replace_items(vec![item("vim", "iTerm2", 1, 1, 1, "Vim Editor", "/src/convey")]);

    type_query(&mut select, "name:\"Vim Editor\"");

    assert_eq!(select.selected_key(), Some("vim"));
}

#[test]
fn keeps_non_candidates_visible_but_unselectable() {
    let mut select = TreeSelect::new(20);
    select.replace_items(items());
    type_query(&mut select, "name:vim");

    assert_eq!(select.rows().len(), 10);
    let ghostty_pane = row_of(&select, 0);
    let vim_pane = row_of(&select, 2);

    assert!(!select.select_at(ghostty_pane));
    assert!(select.select_at(vim_pane));
}

#[test]
fn does_not_render_selection_cursors_when_nothing_matches() {
    let mut select = TreeSelect::new(20);
    select.replace_items(items());

    type_query(&mut select, "no-such-terminal");

    assert_eq!(select.selected_key(), None);
    assert_eq!(select.list_view().cursor, None);
    assert!(!rendered(&select).contains('❯'));
    assert!(rendered(&select).contains("0 matches / 3 terminals"));
}

#[test]
fn reports_invalid_search_fields() {
    let mut select = TreeSelect::new(20);
    select.replace_items(items());

    type_query(&mut select, "windw:1");

    assert_eq!(select.selected_key(), None);
    assert!(rendered(&select).contains("Unknown search field \"windw\""));
}

#[test]
fn highlights_query_terms_in_related_rows_only() {
    let mut select = TreeSelect::new(20);
    select.replace_items(items());
    type_query(&mut select, "VIM");

    let view = select.list_view();
    let vim = view.lines.iter().find(|line| line.text.iter().collect::<String>().contains("vim ·")).unwrap();
    let word = ['v', 'i', 'm'];
    let start = (0..vim.text.len()).find(|&i| vim.text[i..].starts_with(&word)).unwrap();
    assert!(vim.related);
    assert!(vim.highlighted[start..start + 3].iter().all(|h| *h));
    assert!(!vim.highlighted[0]);
    let ghostty = &view.lines[3];
    assert!(!ghostty.related);
    assert!(ghostty.highlighted.iter().all(|h| !*h));
}

#[test]
fn keeps_the_selection_on_its_key_when_items_are_replaced() {
    let mut select = TreeSelect::new(20);
    select.replace_items(items());
    select.navigate(NavigationDirection::Next);
    assert_eq!(select.selected_key(), Some("cargo"));

    let mut reordered = items();
    reordered.reverse();
    select.replace_items(reordered);

    assert_eq!(select.selected_key(), Some("cargo"));
}

#[test]
fn every_pane_stays_in_the_tree_whatever_the_query() {
    let mut select = TreeSelect::new(20);
    select.replace_items(items());
    for query in ["", "name:vim", "no-such-terminal", "app:ghostty cwd:/workspace"] {
        type_query(&mut select, query);
        for index in 0..3 {
            let rows: Vec<_> = select.rows().iter().filter(|row| row.item_index == Some(index)).collect();
            assert_eq!(rows.len(), 1);
            assert_eq!(rows[0].selectable, select.candidates().contains(&index));
        }
    }
}

#[test]
fn keeps_the_query_and_the_line_budget() {
    let mut select = TreeSelect::new(7);
    select.replace_items(items());
    type_query(&mut select, "app:iterm2");

    assert_eq!(select.query_text().iter().collect::<String>(), "app:iterm2");
    assert_eq!(select.visible_lines(), 7);
}

#[test]
fn a_query_changes_only_which_rows_are_marked() {
    let mut select = TreeSelect::new(20);
    select.replace_items(items());
    let shape = |select: &TreeSelect| {
        select
            .rows()
            .iter()
            .map(|row| (row.depth, row.label.clone(), row.item_index, row.root_index, row.is_last))
            .collect::<Vec<_>>()
    };
    let before = shape(&select);

    for query in ["name:vim", "no-such-terminal", "windw:1"] {
        type_query(&mut select, query);
        assert_eq!(shape(&select), before);
        assert_eq!(select.rows().len(), 10);
    }
}

#[test]
fn reselection_keeps_the_key_or_falls_to_the_first_candidate() {
    let mut select = TreeSelect::new(20);
    select.replace_items(items());
    type_query(&mut select, "cwd:workspace");
    assert_eq!(select.selected_key(), Some("ghostty"));
    select.navigate(NavigationDirection::Next);
    assert_eq!(select.selected_key(), Some("cargo"));

    type_query(&mut select, "iterm2");
    assert_eq!(select.selected_key(), Some("cargo"));
    type_query(&mut select, "vim");
    assert_eq!(select.selected_key(), Some("vim"));
    type_query(&mut select, "windw:1");
    assert_eq!(select.selected_key(), None);
    assert!(select.candidates().is_empty());
}
