use convey::cli::{all_terminal_applications, parse_terminal_applications, parse_terminal_applications_on, Cli, TerminalApplication};

#[test]
fn parses_the_workflow_path_and_terminal_applications() {
    let cli = Cli::new(Some("tmux,tmux"), "workflows".to_owned()).unwrap();

    assert_eq!(cli.workflow, "workflows");
    assert_eq!(cli.terminals, vec![TerminalApplication::Tmux]);
}

#[test]
fn defaults_to_all_recognized_terminal_applications() {
    let cli = Cli::new(None, "workflows".to_owned()).unwrap();

    assert_eq!(cli.terminals, all_terminal_applications());
}

#[test]
fn accepts_all_in_any_case_and_keeps_declaration_order() {
    assert_eq!(
        parse_terminal_applications("ALL").unwrap(),
        vec![
            TerminalApplication::Ghostty,
            TerminalApplication::Iterm2,
            TerminalApplication::Tmux
        ]
    );
    assert_eq!(
        parse_terminal_applications("tmux,ghostty").unwrap(),
        vec![TerminalApplication::Ghostty, TerminalApplication::Tmux]
    );
}

#[test]
fn rejects_an_unknown_application() {
    assert_eq!(
        parse_terminal_applications("tmux,kitty").unwrap_err(),
        "invalid variant: kitty"
    );
    assert_eq!(
        parse_terminal_applications("Tmux").unwrap_err(),
        "invalid variant: Tmux"
    );
}

#[test]
fn names_each_application() {
    assert_eq!(TerminalApplication::Ghostty.name(), "ghostty");
    assert_eq!(TerminalApplication::Iterm2.name(), "iterm2");
    assert_eq!(TerminalApplication::Tmux.name(), "tmux");
}

#[test]
fn off_macos_all_means_tmux_alone() {
    assert_eq!(
        parse_terminal_applications_on("All", false).unwrap(),
        vec![TerminalApplication::Tmux]
    );
    assert_eq!(
        parse_terminal_applications_on("tmux,tmux", false).unwrap(),
        vec![TerminalApplication::Tmux]
    );
}

#[test]
fn off_macos_ghostty_and_iterm2_are_unknown() {
    assert_eq!(
        parse_terminal_applications_on("tmux,ghostty", false).unwrap_err(),
        "invalid variant: ghostty"
    );
    assert_eq!(
        parse_terminal_applications_on("iterm2", false).unwrap_err(),
        "invalid variant: iterm2"
    );
}

#[test]
fn on_macos_every_application_is_offered() {
    assert_eq!(
        parse_terminal_applications_on("all", true).unwrap(),
        all_terminal_applications()
    );
    assert_eq!(
        parse_terminal_applications_on("iterm2,tmux", true).unwrap(),
        vec![TerminalApplication::Iterm2, TerminalApplication::Tmux]
    );
}
