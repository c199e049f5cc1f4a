use convey::automation::tmux::{
    command_error, is_no_targets_error, list_arguments, listing, parse_targets, send_enter_arguments, send_text_arguments,
    TargetsError, FIELD_SEPARATOR, LIST_FORMAT,
};
use convey::automation::Terminal;

#[test]
fn parses_tmux_panes_and_assigns_one_based_tree_indices() {
    let separator = FIELD_SEPARATOR;
    let output = format!(
        "$0{separator}work{separator}@0{separator}editor{separator}%0{separator}vim{separator}nvim{separator}/src\n\
         $0{separator}work{separator}@0{separator}editor{separator}%1{separator}{separator}zsh{separator}/src\n\
         $0{separator}work{separator}@2{separator}server{separator}%2{separator}api{separator}cargo{separator}/src/api\n\
         $3{separator}ops{separator}@4{separator}logs{separator}%9{separator}tail{separator}tail{separator}/var/log\n"
    );

    let targets = parse_targets(output.as_bytes()).unwrap();

    assert_eq!(
        targets,
        vec![
            Terminal {
                id: "%0".into(),
                name: "work:editor · vim".into(),
                working_directory: "/src".into(),
                window_index: 1,
                tab_index: 1,
                terminal_index: 1,
            },
            Terminal {
                id: "%1".into(),
                name: "work:editor · zsh".into(),
                working_directory: "/src".into(),
                window_index: 1,
                tab_index: 1,
                terminal_index: 2,
            },
            Terminal {
                id: "%2".into(),
                name: "work:server · api".into(),
                working_directory: "/src/api".into(),
                window_index: 1,
                tab_index: 2,
                terminal_index: 1,
            },
            Terminal {
                id: "%9".into(),
                name: "ops:logs · tail".into(),
                working_directory: "/var/log".into(),
                window_index: 2,
                tab_index: 1,
                terminal_index: 1,
            },
        ]
    );
}

#[test]
fn rejects_a_malformed_tmux_record() {
    let error = parse_targets(b"$0\x1fwork\x1f%0\n").unwrap_err();

    assert!(error.message().contains("expected 8 fields"));
}

#[test]
fn treats_missing_or_empty_tmux_servers_as_no_targets() {
    assert!(is_no_targets_error(b"no current target\n"));
    assert!(is_no_targets_error(b"no sessions\n"));
    assert!(is_no_targets_error(
        b"no server running on /tmp/tmux-501/default\n"
    ));
    assert!(is_no_targets_error(
        b"error connecting to /tmp/tmux-501/default (No such file or directory)\n"
    ));
    assert!(is_no_targets_error(
        b"error connecting to /tmp/tmux-501/default (Connection refused)\n"
    ));
}

#[test]
fn preserves_real_tmux_failures() {
    assert!(!is_no_targets_error(
        b"error connecting to /tmp/tmux-501/default (Permission denied)\n"
    ));
    assert!(!is_no_targets_error(b"protocol version mismatch\n"));
    assert!(!is_no_targets_error(b"unknown option: -Z\n"));
}

#[test]
fn reports_the_line_and_field_count_of_a_malformed_record() {
    let output = "$0\x1fa\x1f@0\x1fb\x1f%0\x1ft\x1fc\x1f/x\n$1\x1fonly\n";
    let error = parse_targets(output.as_bytes()).unwrap_err();

    assert_eq!(error, TargetsError::FieldCount { line: 2, fields: 2 });
    assert_eq!(error.message(), "expected 8 fields on line 2, got 2");
}

#[test]
fn rejects_output_that_is_not_utf8() {
    let error = parse_targets(&[0xff, 0xfe, b'\n']).unwrap_err();

    assert_eq!(error, TargetsError::NotUtf8("invalid utf-8 sequence of 1 bytes from index 0".to_owned()));
    assert_eq!(error.message(), "tmux output is not UTF-8: invalid utf-8 sequence of 1 bytes from index 0");
}

#[test]
fn empty_output_lists_no_panes() {
    assert_eq!(parse_targets(b"").unwrap(), Vec::<Terminal>::new());
}

#[test]
fn strips_carriage_returns_and_counts_panes_per_window() {
    let output = "$0\x1fs\x1f@1\x1fw\x1f%1\x1f\x1f\x1f/a\r\n$0\x1fs\x1f@1\x1fw\x1f%2\x1f\x1f\x1f/b\r\n";
    let targets = parse_targets(output.as_bytes()).unwrap();

    assert_eq!(targets.len(), 2);
    assert_eq!(targets[0].working_directory, "/a");
    assert_eq!(targets[0].name, "s:w");
    assert_eq!(targets[1].terminal_index, 2);
    assert_eq!(targets[1].tab_index, 1);
}

#[test]
fn formats_tmux_failures_with_trimmed_standard_error() {
    assert_eq!(command_error(b"  bad option\n"), "tmux failed: bad option");
}

#[test]
fn builds_the_tmux_command_lines() {
    assert_eq!(list_arguments(), vec!["list-panes", "-a", "-F", LIST_FORMAT]);
    assert!(LIST_FORMAT.starts_with("#{session_id}\u{1f}#{session_name}"));
    assert_eq!(send_text_arguments("%3", "-n hi"), vec!["send-keys", "-t", "%3", "-l", "--", "-n hi"]);
    assert_eq!(send_enter_arguments("%3"), vec!["send-keys", "-t", "%3", "Enter"]);
}

#[test]
fn reads_a_listing_run() {
    assert_eq!(listing(false, b"", b"no server running on /tmp/tmux-0/default\n"), Ok(Vec::new()));
    assert_eq!(
        listing(false, b"", b" boom \n"),
        Err("failed to list tmux targets: tmux failed: boom".to_owned())
    );
    assert_eq!(
        listing(true, b"just one field\n", b""),
        Err("invalid tmux target response: expected 8 fields on line 1, got 1".to_owned())
    );
    let separator = FIELD_SEPARATOR;
    let output = format!("$0{separator}work{separator}@0{separator}editor{separator}%0{separator}vim{separator}nvim{separator}/src\n");
    let terminals = listing(true, output.as_bytes(), b"").unwrap();
    assert_eq!(terminals, parse_targets(output.as_bytes()).unwrap());
    assert_eq!(terminals.len(), 1);
}
