use convey::automation::Terminal;
use convey::cli::TerminalApplication;
use convey::display::{compact_value, target_key, terminal_label, tree_prefix, TerminalTarget};

#[test]
fn compacts_values_without_scanning_past_the_display_limit() {
    assert_eq!(compact_value(""), "—");
    assert_eq!(compact_value("  \n"), "—");
    assert_eq!(compact_value("a\nb"), "a ↵ b");
    assert_eq!(compact_value(&"x".repeat(48)), "x".repeat(48));
    assert_eq!(
        compact_value(&"x".repeat(49)),
        format!("{}…", "x".repeat(48))
    );
}

#[test]
fn cuts_a_newline_expansion_at_the_limit() {
    let value = format!("{}\nz", "x".repeat(47));
    assert_eq!(compact_value(&value), format!("{} …", "x".repeat(47)));
}

fn target() -> TerminalTarget {
    TerminalTarget {
        application: TerminalApplication::Iterm2,
        terminal: Terminal {
            id: "w0t1p2".into(),
            name: "shell".into(),
            working_directory: "/src".into(),
            window_index: 1,
            tab_index: 2,
            terminal_index: 3,
        },
    }
}

#[test]
fn labels_a_destination() {
    assert_eq!(
        terminal_label(&target()),
        "iTerm2 › Window 1 › Tab 2 › Pane 3 · shell · /src"
    );
    assert_eq!(
        target_key(&target()).into_iter().collect::<String>(),
        "iterm2:w0t1p2"
    );
}

#[test]
fn draws_tree_branches() {
    let text = |v: Vec<char>| v.into_iter().collect::<String>();
    assert_eq!(text(tree_prefix(&[], 0, true)), "");
    assert_eq!(text(tree_prefix(&[true], 1, true)), "└─ ");
    assert_eq!(text(tree_prefix(&[false, false], 2, false)), "│  ├─ ");
    assert_eq!(text(tree_prefix(&[false, true, false], 3, true)), "   │  └─ ");
}
