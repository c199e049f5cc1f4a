use convey::automation::Terminal;
use convey::cli::TerminalApplication;
use convey::display::TerminalTarget;
use convey::select::NavigationDirection;
use convey::target::{add_listing, refresh_step, RefreshStep, RefreshWake, TerminalTargetSelector, TerminalTargetUpdate};

fn target(id: &str, terminal_index: usize) -> TerminalTarget {
    TerminalTarget {
        application: TerminalApplication::Tmux,
        terminal: Terminal {
            id: id.into(),
            name: format!("pane-{id}"),
            working_directory: "/workspace".into(),
            window_index: 1,
            tab_index: 1,
            terminal_index,
        },
    }
}

fn selector() -> TerminalTargetSelector {
    TerminalTargetSelector::new(vec![TerminalApplication::Tmux])
}

#[test]
fn selects_a_terminal_pane() {
    let mut selector = selector();
    selector.apply_refresh(vec![target("one", 1), target("two", 2)]);

    selector.navigate(NavigationDirection::Next);
    assert!(selector.save());

    assert_eq!(selector.selected().unwrap().terminal.id, "two");
}

#[test]
fn removes_a_saved_pane_when_it_disappears() {
    let mut selector = selector();
    selector.apply_refresh(vec![target("one", 1)]);
    assert!(selector.save());

    selector.apply_refresh(Vec::new());

    assert!(selector.selected().is_none());
}

#[test]
fn finishes_refreshing_when_the_targets_are_unchanged() {
    let targets = vec![target("one", 1)];
    let mut selector = selector();
    selector.apply_refresh(targets.clone());
    selector.apply_update(TerminalTargetUpdate::RefreshStarted);

    selector.apply_update(TerminalTargetUpdate::RefreshFinished(Ok(targets)));

    assert!(!selector.is_loading());
}

#[test]
fn requests_an_immediate_refresh_only_once_while_loading() {
    let mut selector = selector();
    let mut sent = 0;
    for _ in 0..2 {
        if !selector.is_loading() {
            sent += 1;
            selector.refresh_requested();
        }
    }

    assert!(selector.is_loading());
    assert_eq!(sent, 1);
}

#[test]
fn reports_the_refresh_state() {
    let mut selector = selector();
    assert_eq!(selector.status_message(), None);
    assert_eq!(selector.value_label(), "not set");

    selector.apply_update(TerminalTargetUpdate::RefreshStarted);
    assert_eq!(selector.status_message().as_deref(), Some("Refreshing terminal panes…"));

    selector.apply_update(TerminalTargetUpdate::RefreshFinished(Err("tmux exited".into())));
    assert_eq!(
        selector.status_message().as_deref(),
        Some("Failed to refresh terminal panes: tmux exited\nPress Ctrl+R to retry")
    );

    selector.apply_update(TerminalTargetUpdate::RefreshFinished(Ok(Vec::new())));
    assert_eq!(
        selector.status_message().as_deref(),
        Some("No terminal panes found. Press Ctrl+R or wait for refresh…")
    );
}

#[test]
fn labels_the_saved_pane() {
    let mut selector = selector();
    selector.apply_refresh(vec![target("one", 1)]);
    assert!(selector.save());

    assert_eq!(selector.value_label(), "tmux › Window 1 › Tab 1 › Pane 1 · pane-one · /workspace");
}

#[test]
fn keeps_a_saved_pane_that_is_still_listed() {
    let mut selector = selector();
    selector.apply_refresh(vec![target("one", 1), target("two", 2)]);
    selector.navigate(NavigationDirection::Next);
    assert!(selector.save());

    selector.apply_refresh(vec![target("two", 2), target("three", 3)]);

    assert_eq!(selector.selected().unwrap().terminal.id, "two");
}

#[test]
fn collects_listings_in_application_order_and_names_a_failure() {
    let listed = add_listing(Vec::new(), TerminalApplication::Tmux, Ok(vec![target("one", 1).terminal])).unwrap();
    assert_eq!(listed.len(), 1);
    assert_eq!(listed[0].application, TerminalApplication::Tmux);

    let failed = add_listing(listed, TerminalApplication::Iterm2, Err("not running".into()));
    assert_eq!(failed.err().as_deref(), Some("failed to list iterm2 targets: not running"));
}

#[test]
fn the_refresh_task_runs_until_the_screen_stops_asking() {
    assert_eq!(refresh_step(RefreshWake::Tick), RefreshStep::Refresh);
    assert_eq!(refresh_step(RefreshWake::Requested), RefreshStep::Refresh);
    assert_eq!(refresh_step(RefreshWake::RequestsClosed), RefreshStep::Stop);
}
