use convey::automation::Terminal;
use convey::cli::TerminalApplication;
use convey::display::TerminalTarget;
use convey::field::FieldControl;
use convey::input::CommandCandidates;
use convey::task::{command_output, CommandRun};
use convey::regions::{help_text, Region, RegionContent};
use convey::screen::{navigation_direction, Click, Focus, InputScreen, Key, KeyOutcome, Page, Tone};
use convey::select::NavigationDirection;
use convey::target::TerminalTargetUpdate;
use convey::workflow::{RawCandidates, RawInput, RawInputEntry, RawInputKind, RawWorkflow, Workflow};
use convey::workflow_selector::WorkflowSelector;

fn textarea(name: &str, allow_empty: bool) -> RawInputEntry {
    RawInputEntry {
        name: Some(name.to_owned()),
        definition: Ok(RawInput { kind: RawInputKind::Textarea, allow_empty, depends_on: Vec::new(), candidates: None }),
    }
}

fn select(name: &str, allow_empty: bool, depends_on: &[&str], values: &[&str]) -> RawInputEntry {
    RawInputEntry {
        name: Some(name.to_owned()),
        definition: Ok(RawInput {
            kind: RawInputKind::Select,
            allow_empty,
            depends_on: depends_on.iter().map(|s| s.to_string()).collect(),
            candidates: Some(RawCandidates { values: Some(values.iter().map(|s| s.to_string()).collect()), command: None }),
        }),
    }
}

fn command_select(name: &str, allow_empty: bool, depends_on: &[&str], program: &str, args: &[&str]) -> RawInputEntry {
    RawInputEntry {
        name: Some(name.to_owned()),
        definition: Ok(RawInput {
            kind: RawInputKind::Select,
            allow_empty,
            depends_on: depends_on.iter().map(|s| s.to_string()).collect(),
            candidates: Some(RawCandidates {
                values: None,
                command: Some(CommandCandidates { program: program.to_owned(), args: args.iter().map(|s| s.to_string()).collect() }),
            }),
        }),
    }
}

fn definitions() -> Vec<RawInputEntry> {
    vec![
        select("context", true, &[], &["local", "production"]),
        select("namespace", true, &["context"], &["default"]),
        textarea("request", true),
    ]
}

fn input_screen(inputs: Vec<RawInputEntry>) -> InputScreen {
    let workflow = Workflow::from_raw(RawWorkflow { name: "test".to_owned(), inputs, template: "{{ inputs.request }}".to_owned() })
        .ok()
        .unwrap();
    let selector = WorkflowSelector::from_file("test.yaml".to_owned(), "test.yaml".to_owned(), workflow);
    InputScreen::new(selector, vec![TerminalApplication::Ghostty])
}

fn no_load(path: String) -> Result<Workflow, String> {
    Err(format!("unexpected load of {path}"))
}

fn press(screen: &mut InputScreen, key: Key) -> KeyOutcome {
    screen.process_key(key, false, &no_load)
}

/// Types `text` into the focused input, as its editor would take the keys.
fn type_text(screen: &mut InputScreen, text: &str) {
    let index = match screen.focus() {
        Focus::Field(index) => index,
        _ => panic!("no input has the focus"),
    };
    let mut typed: Vec<char> = Vec::new();
    for c in text.chars() {
        let key = if c == '\n' { Key::Enter } else { Key::Char(c) };
        assert_eq!(press(screen, key), KeyOutcome::EditField(index));
        typed.push(c);
        if screen.fields()[index].is_textarea() {
            screen.set_field_text(index, &typed);
        } else {
            screen.set_field_query(index, &typed);
        }
    }
}

fn terminal() -> Terminal {
    Terminal {
        id: "42".into(),
        name: "agent".into(),
        working_directory: "/workspace".into(),
        window_index: 1,
        tab_index: 1,
        terminal_index: 1,
    }
}

fn target() -> TerminalTarget {
    TerminalTarget { application: TerminalApplication::Ghostty, terminal: terminal() }
}

fn make_target_available(screen: &mut InputScreen) {
    screen.apply_target_update(TerminalTargetUpdate::RefreshFinished(Ok(vec![target()])));
}

fn advance_to_first_field(screen: &mut InputScreen) {
    press(screen, Key::Enter);
    assert_eq!(screen.focus(), Focus::Workflow);
    press(screen, Key::Enter);
    assert_eq!(screen.focus(), Focus::Field(0));
}

fn value(screen: &InputScreen, index: usize) -> Option<String> {
    screen.fields()[index].value().map(str::to_owned)
}

fn saved(screen: &InputScreen, name: &str) -> Option<String> {
    screen.saved_values().get(name).cloned()
}

#[test]
fn tab_and_arrows_navigate_seamlessly_across_candidates_and_sections() {
    let mut screen = input_screen(definitions());
    make_target_available(&mut screen);

    press(&mut screen, Key::Down);
    assert_eq!(screen.focus(), Focus::Workflow);
    assert_eq!(screen.target().selected(), Some(&target()));

    press(&mut screen, Key::Tab);
    assert_eq!(screen.focus(), Focus::Field(0));

    press(&mut screen, Key::Down);
    assert_eq!(screen.focus(), Focus::Field(0));
    assert_eq!(screen.fields()[0].draft().as_deref(), Some("production"));
    assert_eq!(value(&screen, 0), None);

    press(&mut screen, Key::Tab);
    assert_eq!(screen.focus(), Focus::Field(1));
    assert_eq!(value(&screen, 0).as_deref(), Some("production"));
    assert_eq!(saved(&screen, "context").as_deref(), Some("production"));
    press(&mut screen, Key::Up);
    assert_eq!(screen.focus(), Focus::Field(0));

    press(&mut screen, Key::BackTab);
    assert_eq!(screen.focus(), Focus::Field(0));
    assert_eq!(screen.fields()[0].draft().as_deref(), Some("local"));

    press(&mut screen, Key::Up);
    assert_eq!(screen.focus(), Focus::Workflow);
    assert_eq!(value(&screen, 0).as_deref(), Some("local"));
}

#[test]
fn tab_and_arrows_traverse_textarea_lines_before_leaving_the_field() {
    let mut screen = input_screen(definitions());
    screen.set_focus(Focus::Field(2));
    type_text(&mut screen, "a\nb");

    screen.process_key(Key::BackTab, true, &no_load);
    assert_eq!(screen.focus(), Focus::Field(2));

    screen.process_key(Key::Down, true, &no_load);
    assert_eq!(screen.focus(), Focus::Field(2));

    screen.process_key(Key::Tab, false, &no_load);
    assert_eq!(screen.focus(), Focus::Target);
    assert_eq!(value(&screen, 2).as_deref(), Some("a\nb"));
}

#[test]
fn clicking_a_field_moves_focus_and_saves_the_current_field() {
    let mut screen = input_screen(definitions());
    make_target_available(&mut screen);
    screen.process_click(Click::FieldRow(2), &no_load);
    assert_eq!(screen.focus(), Focus::Field(2));
    type_text(&mut screen, "x");

    screen.process_click(Click::FieldRow(0), &no_load);

    assert_eq!(screen.focus(), Focus::Field(0));
    assert_eq!(value(&screen, 2).as_deref(), Some("x"));
    assert_eq!(saved(&screen, "request").as_deref(), Some("x"));
}

#[test]
fn clicking_a_select_candidate_saves_it_and_advances() {
    let mut screen = input_screen(definitions());
    screen.set_focus(Focus::Field(0));

    screen.process_click(Click::FieldCandidate(1), &no_load);

    assert_eq!(value(&screen, 0).as_deref(), Some("production"));
    assert_eq!(saved(&screen, "context").as_deref(), Some("production"));
    assert_eq!(screen.focus(), Focus::Field(1));
}

#[test]
fn mouse_wheel_moves_between_input_fields() {
    let mut screen = input_screen(definitions());
    screen.set_focus(Focus::Field(0));

    screen.scroll(false, &no_load);

    assert_eq!(screen.focus(), Focus::Field(1));
    assert_eq!(value(&screen, 0).as_deref(), Some("local"));

    screen.scroll(true, &no_load);

    assert_eq!(screen.focus(), Focus::Field(0));
    assert_eq!(screen.fields()[0].draft().as_deref(), Some("local"));
}

#[test]
fn mouse_wheel_does_not_wrap_past_the_field_list() {
    let mut screen = input_screen(definitions());
    screen.set_focus(Focus::Field(0));

    screen.scroll(true, &no_load);
    assert_eq!(screen.focus(), Focus::Field(0));

    let last = screen.fields().len() - 1;
    screen.set_focus(Focus::Field(last));
    screen.scroll(false, &no_load);
    assert_eq!(screen.focus(), Focus::Field(last));
}

#[test]
fn clicking_a_destination_candidate_saves_it_and_advances() {
    let mut screen = input_screen(definitions());
    let other = TerminalTarget {
        application: TerminalApplication::Ghostty,
        terminal: Terminal { id: "43".into(), name: "other".into(), ..terminal() },
    };
    screen.apply_target_update(TerminalTargetUpdate::RefreshFinished(Ok(vec![target(), other])));

    screen.process_click(Click::TargetCandidate(4), &no_load);

    assert_eq!(screen.target().selected().map(|target| target.terminal.id.as_str()), Some("43"));
    assert_eq!(screen.focus(), Focus::Workflow);
}

#[test]
fn control_enter_saves_a_textarea() {
    let mut screen = input_screen(definitions());
    screen.set_focus(Focus::Field(2));
    type_text(&mut screen, "x");

    press(&mut screen, Key::ControlEnter);

    assert_eq!(value(&screen, 2).as_deref(), Some("x"));
}

#[test]
fn only_control_s_submits_the_complete_form() {
    let mut screen = input_screen(vec![select("target", true, &[], &["local"])]);
    make_target_available(&mut screen);

    assert_eq!(press(&mut screen, Key::Enter), KeyOutcome::Redraw);
    assert_eq!(screen.focus(), Focus::Workflow);

    assert_eq!(press(&mut screen, Key::Enter), KeyOutcome::Redraw);
    assert_eq!(screen.focus(), Focus::Field(0));

    assert_eq!(press(&mut screen, Key::Enter), KeyOutcome::Redraw);
    assert_eq!(value(&screen, 0).as_deref(), Some("local"));

    assert_eq!(press(&mut screen, Key::Control('s')), KeyOutcome::Submit);
}

#[test]
fn empty_optional_input_can_be_submitted() {
    let mut screen = input_screen(vec![textarea("request", true)]);
    make_target_available(&mut screen);
    advance_to_first_field(&mut screen);

    assert_eq!(press(&mut screen, Key::Control('s')), KeyOutcome::Submit);
    assert_eq!(value(&screen, 0), None);
    assert!(!screen.saved_values().contains_key("request"));
}

#[test]
fn empty_required_inputs_do_not_block_focus_navigation() {
    let mut screen = input_screen(vec![
        textarea("request", false),
        command_select("category", false, &[], "categories", &[]),
        textarea("details", false),
    ]);
    make_target_available(&mut screen);
    advance_to_first_field(&mut screen);

    assert_eq!(screen.focus(), Focus::Field(0));
    assert!(screen.field_status(0).is_none());

    press(&mut screen, Key::Tab);
    assert_eq!(screen.focus(), Focus::Field(1));

    press(&mut screen, Key::Tab);
    assert_eq!(screen.focus(), Focus::Field(2));

    press(&mut screen, Key::Tab);
    assert_eq!(screen.focus(), Focus::Target);

    press(&mut screen, Key::BackTab);
    assert_eq!(screen.focus(), Focus::Field(2));

    screen.focus_on(Focus::Field(0), &no_load);
    assert_eq!(screen.focus(), Focus::Field(0));

    press(&mut screen, Key::ControlEnter);
    assert_eq!(screen.focus(), Focus::Field(1));
}

#[test]
fn empty_required_input_prevents_submit_and_shows_required() {
    let mut screen = input_screen(vec![textarea("request", false)]);
    make_target_available(&mut screen);
    advance_to_first_field(&mut screen);

    assert!(screen.field_status(0).is_none());

    assert_eq!(press(&mut screen, Key::Control('s')), KeyOutcome::Redraw);
    assert_eq!(screen.focus(), Focus::Field(0));
    assert_eq!(screen.field_status(0).map(|status| status.text), Some("request is required".to_owned()));
    assert!(!screen.saved_values().contains_key("request"));
}

#[test]
fn submit_saves_only_the_focused_field() {
    let mut screen = input_screen(vec![select("environment", false, &[], &["production"]), textarea("request", false)]);
    make_target_available(&mut screen);
    advance_to_first_field(&mut screen);

    assert_eq!(press(&mut screen, Key::Control('s')), KeyOutcome::Redraw);
    assert_eq!(value(&screen, 0).as_deref(), Some("production"));
    assert_eq!(value(&screen, 1), None);
    assert_eq!(saved(&screen, "environment").as_deref(), Some("production"));
    assert!(!screen.saved_values().contains_key("request"));
    assert_eq!(screen.focus(), Focus::Field(1));
    assert_eq!(screen.field_status(1).map(|status| status.text), Some("request is required".to_owned()));
}

#[test]
fn submit_saves_the_current_draft() {
    let mut screen = input_screen(vec![textarea("request", false)]);
    make_target_available(&mut screen);
    advance_to_first_field(&mut screen);
    type_text(&mut screen, "x");

    assert_eq!(press(&mut screen, Key::Control('s')), KeyOutcome::Submit);
    assert_eq!(screen.focus(), Focus::Field(0));
    assert_eq!(saved(&screen, "request").as_deref(), Some("x"));
}

#[test]
fn changing_a_value_invalidates_dependent_fields() {
    let mut screen = input_screen(definitions());
    screen.set_focus(Focus::Field(0));
    assert!(screen.save_field(0));
    screen.set_focus(Focus::Field(1));
    assert!(screen.save_field(1));
    assert_eq!(saved(&screen, "namespace").as_deref(), Some("default"));

    screen.set_focus(Focus::Field(0));
    press(&mut screen, Key::Down);
    assert!(screen.save_field(0));

    assert_eq!(saved(&screen, "context").as_deref(), Some("production"));
    assert!(!screen.saved_values().contains_key("namespace"));
    assert!(value(&screen, 1).is_none());
}

#[test]
fn plain_r_remains_available_after_a_candidate_task_failure() {
    let mut screen = input_screen(vec![command_select("target", true, &[], "false", &[])]);
    screen.set_focus(Focus::Field(0));
    let (id, program, args) = screen.start_active_task().unwrap();
    assert_eq!(program, "false");
    assert!(args.is_empty());
    screen.apply_task_event(id, Err("failed".to_owned()));

    type_text(&mut screen, "r");

    assert_eq!(screen.fields()[0].draft().as_deref(), Some("r"));
    assert!(screen.fields()[0].error_message().is_some());

    assert_eq!(press(&mut screen, Key::Control('r')), KeyOutcome::Redraw);

    assert!(screen.fields()[0].needs_load());
}

#[test]
fn target_selection_can_be_cancelled() {
    let mut screen = input_screen(definitions());
    assert_eq!(press(&mut screen, Key::Esc), KeyOutcome::Cancel);
    assert_eq!(press(&mut screen, Key::Control('c')), KeyOutcome::Cancel);
}

#[test]
fn submitting_without_a_destination_shows_required() {
    let mut screen = input_screen(definitions());

    assert!(screen.target_status().is_none());

    assert_eq!(press(&mut screen, Key::Control('s')), KeyOutcome::Redraw);
    assert_eq!(screen.focus(), Focus::Target);
    let status = screen.target_status().unwrap();
    assert_eq!(status.text, "destination is required");
    assert_eq!(status.tone, Tone::Error);
    assert!(screen.target().selected().is_none());
}

#[test]
fn submit_saves_the_focused_destination() {
    let mut screen = input_screen(vec![textarea("request", true)]);
    make_target_available(&mut screen);

    assert_eq!(press(&mut screen, Key::Control('s')), KeyOutcome::Submit);
    assert_eq!(screen.target().selected(), Some(&target()));
    assert_eq!(value(&screen, 0), None);
}

#[test]
fn control_g_toggles_the_help_page_and_escape_also_returns_to_inputs() {
    let mut screen = input_screen(definitions());

    assert_eq!(press(&mut screen, Key::Control('g')), KeyOutcome::Redraw);
    assert_eq!(screen.page(), Page::Help);
    let regions = screen.regions();
    assert_eq!(regions.len(), 1);
    assert_eq!(regions[0], (Region::Page, RegionContent::Help));
    assert!(help_text().contains("Convey help"));

    assert_eq!(press(&mut screen, Key::Control('g')), KeyOutcome::Redraw);
    assert_eq!(screen.page(), Page::Input);

    press(&mut screen, Key::Control('g'));
    assert_eq!(press(&mut screen, Key::Esc), KeyOutcome::Redraw);
    assert_eq!(screen.page(), Page::Input);
    assert!(!screen.regions().iter().any(|(region, _)| *region == Region::Page));
}

#[test]
fn the_help_page_replaces_every_region() {
    let mut screen = input_screen(definitions());
    press(&mut screen, Key::Control('g'));

    assert_eq!(screen.regions(), vec![(Region::Page, RegionContent::Help)]);
    let updates = screen.region_updates();
    assert_eq!(updates.len(), 16);
    assert_eq!(updates[0], (Region::TargetHeader, RegionContent::Empty));
    assert_eq!(updates[15], (Region::Page, RegionContent::Help));
    assert!(updates[..15].iter().all(|(_, content)| *content == RegionContent::Empty));
}

#[test]
fn workflow_selection_leaves_one_row_before_the_input_fields() {
    let mut screen = input_screen(definitions());
    make_target_available(&mut screen);
    press(&mut screen, Key::Enter);
    assert_eq!(screen.focus(), Focus::Workflow);

    let regions = screen.regions();
    let spacer = regions.iter().find(|(region, _)| *region == Region::WorkflowSpacer).map(|(_, content)| *content);
    assert_eq!(spacer, Some(RegionContent::Spacer));
    assert_eq!(regions.len(), 15);
    assert!(regions.contains(&(Region::WorkflowCandidates, RegionContent::WorkflowCandidates)));
    assert!(regions.contains(&(Region::TargetCandidates, RegionContent::Empty)));
}

#[test]
fn the_focused_input_shows_its_editor_and_candidates() {
    let mut screen = input_screen(definitions());
    make_target_available(&mut screen);
    advance_to_first_field(&mut screen);

    let regions = screen.regions();
    assert!(regions.contains(&(Region::Editor, RegionContent::FieldEditor(0))));
    assert!(regions.contains(&(Region::Candidates, RegionContent::FieldCandidates(0))));
    assert!(regions.contains(&(Region::WorkflowSpacer, RegionContent::Empty)));
    assert!(regions.contains(&(Region::TargetEditor, RegionContent::Empty)));
    let updates = screen.region_updates();
    assert_eq!(updates[15], (Region::Page, RegionContent::Empty));
    assert_eq!(&updates[..15], &regions[..]);
}

#[test]
fn control_c_cancels_from_the_help_page() {
    let mut screen = input_screen(definitions());
    press(&mut screen, Key::Control('g'));

    assert_eq!(press(&mut screen, Key::Control('c')), KeyOutcome::Cancel);
}

#[test]
fn submission_hands_over_the_destination_workflow_and_values() {
    let mut screen = input_screen(vec![textarea("request", false)]);
    make_target_available(&mut screen);
    advance_to_first_field(&mut screen);
    type_text(&mut screen, "look at the pods");
    assert_eq!(press(&mut screen, Key::Control('s')), KeyOutcome::Submit);

    let submission = screen.into_submission().ok().unwrap();

    assert_eq!(submission.target, target());
    assert_eq!(submission.workflow.name(), "test");
    assert_eq!(submission.workflow.render(&submission.values).ok().as_deref(), Some("look at the pods"));
}

#[test]
fn waits_for_dependencies_before_loading_candidates() {
    let mut screen = input_screen(vec![
        select("context", true, &[], &["local"]),
        command_select("namespace", true, &["context"], "kubectl", &["--context", "{{ inputs.context }}"]),
    ]);
    screen.set_focus(Focus::Field(1));

    assert!(screen.start_active_task().is_none());
    assert_eq!(screen.field_status(1).map(|status| status.text), Some("Complete context first".to_owned()));

    screen.set_focus(Focus::Field(0));
    assert!(screen.save_field(0));
    screen.set_focus(Focus::Field(1));
    let (id, program, args) = screen.start_active_task().unwrap();
    assert_eq!(program, "kubectl");
    assert_eq!(args, vec!["--context".to_owned(), "local".to_owned()]);
    assert_eq!(screen.running_task_id(), Some(id));
    let loading = screen.field_status(1).unwrap();
    assert_eq!(loading.text, "Loading namespace…");
    assert!(loading.spinner);
    assert!(screen.start_active_task().is_none());

    screen.apply_task_event(id + 1, Ok("ignored\n".to_owned()));
    assert_eq!(screen.running_task_id(), Some(id));

    screen.apply_task_event(id, Ok("default\n\n  kube-system  \n".to_owned()));
    assert_eq!(screen.running_task_id(), None);
    assert_eq!(screen.fields()[1].draft().as_deref(), Some("default"));
    press(&mut screen, Key::Down);
    assert_eq!(screen.fields()[1].draft().as_deref(), Some("kube-system"));
}

#[test]
fn describes_the_sections_in_one_line_each() {
    let mut screen = input_screen(definitions());
    make_target_available(&mut screen);

    assert_eq!(screen.target_line(), "▶ not set\n");
    assert_eq!(screen.workflow_line(), "✓ test — test.yaml\n");
    assert_eq!(screen.field_line(0), "○ context: —");

    press(&mut screen, Key::Enter);
    assert_eq!(screen.target_line(), "✓ Ghostty › Window 1 › Tab 1 › Pane 1 · agent · /w…\n");
    assert_eq!(screen.workflow_line(), "▶ test — test.yaml\n");
    press(&mut screen, Key::Enter);
    assert_eq!(screen.field_line(0), "▶ context: local");
}

#[test]
fn offers_the_query_as_a_custom_value() {
    let mut screen = input_screen(definitions());
    screen.set_focus(Focus::Field(0));
    type_text(&mut screen, "staging");

    let status = screen.field_status(0).unwrap();
    assert_eq!(status.text, "No candidate — Enter uses “staging”");
    assert_eq!(status.tone, Tone::Warning);
    assert_eq!(press(&mut screen, Key::Enter), KeyOutcome::Redraw);
    assert_eq!(value(&screen, 0).as_deref(), Some("staging"));
}

#[test]
fn moving_the_focus_forward_then_back_returns_to_it() {
    let mut screen = input_screen(definitions());
    for start in [Focus::Target, Focus::Workflow, Focus::Field(0), Focus::Field(1), Focus::Field(2)] {
        screen.set_focus(start);
        screen.focus_next();
        screen.focus_previous();
        assert_eq!(screen.focus(), start);
        screen.focus_previous();
        screen.focus_next();
        assert_eq!(screen.focus(), start);
    }
    screen.set_focus(Focus::Field(2));
    screen.focus_next();
    assert_eq!(screen.focus(), Focus::Target);
    screen.focus_previous();
    assert_eq!(screen.focus(), Focus::Field(2));
}

#[test]
fn invalidation_follows_chains_of_dependencies() {
    let mut screen = input_screen(vec![
        select("cluster", true, &[], &["east", "west"]),
        select("namespace", true, &["cluster"], &["default"]),
        select("pod", true, &["namespace"], &["api"]),
        select("unrelated", true, &[], &["x"]),
    ]);
    for index in 0..4 {
        screen.set_focus(Focus::Field(index));
        assert!(screen.save_field(index));
    }
    assert_eq!(saved(&screen, "pod").as_deref(), Some("api"));

    screen.set_focus(Focus::Field(0));
    press(&mut screen, Key::Down);
    assert!(screen.save_field(0));

    assert_eq!(saved(&screen, "cluster").as_deref(), Some("west"));
    assert_eq!(saved(&screen, "namespace"), None);
    assert_eq!(saved(&screen, "pod"), None);
    assert_eq!(saved(&screen, "unrelated").as_deref(), Some("x"));
}

#[test]
fn a_required_textarea_lets_the_focus_go_on_without_a_value() {
    let mut screen = input_screen(vec![textarea("request", false), textarea("notes", true)]);
    screen.set_focus(Focus::Field(0));

    assert_eq!(press(&mut screen, Key::Tab), KeyOutcome::Redraw);
    assert_eq!(screen.focus(), Focus::Field(1));
    assert_eq!(value(&screen, 0), None);

    assert_eq!(press(&mut screen, Key::BackTab), KeyOutcome::Redraw);
    assert_eq!(press(&mut screen, Key::BackTab), KeyOutcome::Redraw);
    assert_eq!(screen.focus(), Focus::Workflow);
}

#[test]
fn typing_in_the_workflow_list_forgets_its_error() {
    let selector = WorkflowSelector::from_directory(
        "flows",
        vec![("flows/a.yaml".to_owned(), "a.yaml".to_owned()), ("flows/b.yaml".to_owned(), "b.yaml".to_owned())],
    )
    .unwrap();
    let mut screen = InputScreen::new(selector, vec![TerminalApplication::Tmux]);
    screen.set_focus(Focus::Workflow);
    let fail = |path: String| -> Result<Workflow, String> { Err(format!("failed to read workflow {path}")) };

    assert_eq!(screen.process_key(Key::Enter, false, &fail), KeyOutcome::Redraw);
    assert_eq!(screen.focus(), Focus::Workflow);
    assert_eq!(screen.workflow().error_message(), Some("failed to read workflow flows/a.yaml"));

    assert_eq!(screen.process_key(Key::Char('b'), false, &fail), KeyOutcome::EditWorkflow);
    assert_eq!(screen.workflow().error_message(), None);
}

#[test]
fn is_busy_while_candidates_load() {
    let mut screen = input_screen(vec![command_select("context", true, &[], "kubectl", &["config", "get-contexts"])]);
    assert!(!screen.is_busy());
    screen.set_focus(Focus::Field(0));

    let (id, program, args) = screen.start_active_task().unwrap();
    assert_eq!(program, "kubectl");
    assert_eq!(args, vec!["config", "get-contexts"]);
    assert!(screen.is_busy());

    screen.apply_task_event(id, Ok("prod\nstaging\n".to_owned()));
    assert!(!screen.is_busy());
    screen.refresh_requested();
    assert!(screen.is_busy());
}

#[test]
fn a_command_offers_its_nonblank_output_lines() {
    let mut screen = input_screen(vec![command_select("context", true, &[], "kubectl", &["config", "get-contexts"])]);
    screen.set_focus(Focus::Field(0));
    let (id, program, _) = screen.start_active_task().unwrap();

    let run = CommandRun::Exited {
        success: true,
        status: "exit status: 0".to_owned(),
        stdout: b"  prod \n\n\tstaging\n".to_vec(),
        stderr: Vec::new(),
    };
    screen.apply_task_event(id, command_output(&program, run));

    let FieldControl::Select(control) = screen.fields()[0].control() else {
        panic!("context is not a select");
    };
    assert_eq!(control.select.suggestion_labels().0, vec!["prod", "staging"]);
}

#[test]
fn a_failed_command_leaves_its_message() {
    let mut screen = input_screen(vec![command_select("context", true, &[], "kubectl", &[])]);
    screen.set_focus(Focus::Field(0));
    let (id, program, _) = screen.start_active_task().unwrap();

    let run = CommandRun::Exited {
        success: false,
        status: "exit status: 1".to_owned(),
        stdout: Vec::new(),
        stderr: b"no context\n".to_vec(),
    };
    screen.apply_task_event(id, command_output(&program, run));

    assert_eq!(screen.fields()[0].error_message(), Some("kubectl exited with exit status: 1: no context"));
}

#[test]
fn tab_and_the_arrows_are_the_navigation_keys() {
    assert_eq!(navigation_direction(Key::Tab), Some(NavigationDirection::Next));
    assert_eq!(navigation_direction(Key::Down), Some(NavigationDirection::Next));
    assert_eq!(navigation_direction(Key::BackTab), Some(NavigationDirection::Previous));
    assert_eq!(navigation_direction(Key::Up), Some(NavigationDirection::Previous));
    assert_eq!(navigation_direction(Key::Left), None);
    assert_eq!(navigation_direction(Key::Enter), None);
}

#[test]
fn focused_field_has_a_background_and_drives_the_fields_viewport() {
    let inputs = (1..=64).map(|index| textarea(&format!("field_{index:02}"), true)).collect::<Vec<_>>();
    let mut screen = input_screen(inputs);
    make_target_available(&mut screen);
    screen.set_focus(Focus::Field(63));

    assert_eq!(screen.field_line(63), "▶ field 64: —");
    assert_eq!(screen.field_line(0), "○ field 01: —");
    assert!(screen.regions().contains(&(Region::Fields, RegionContent::Fields)));
    assert!(screen.regions().contains(&(Region::Editor, RegionContent::FieldEditor(63))));
}
