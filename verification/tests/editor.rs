use convey::editing::TextEdit;
use convey::editor::{apply_edit, move_between_lines, text_of};
use convey::field::FieldControl;
use convey::screen::{InputScreen, Key};
use convey::workflow::{RawCandidates, RawInput, RawInputEntry, RawInputKind, RawWorkflow, Workflow};
use convey::workflow_selector::WorkflowSelector;
use promkit::widgets::text_editor::TextEditor;
use std::collections::HashSet;

fn none() -> HashSet<char> {
    HashSet::new()
}

fn spaces() -> HashSet<char> {
    HashSet::from([' '])
}

fn text(editor: &TextEditor) -> String {
    text_of(editor).into_iter().collect()
}

#[test]
fn inserting_goes_in_at_the_cursor() {
    let mut editor = TextEditor::new("ab");
    apply_edit(&mut editor, TextEdit::ToHead, &none());
    apply_edit(&mut editor, TextEdit::Insert('x'), &none());
    assert_eq!(text(&editor), "xab");
    assert_eq!(editor.position(), 1);
    apply_edit(&mut editor, TextEdit::InsertNewline, &none());
    assert_eq!(text(&editor), "x\nab");
    assert_eq!(editor.position(), 2);
}

#[test]
fn erasing_back_forward_and_by_word() {
    let mut editor = TextEditor::new("ab cd");
    apply_edit(&mut editor, TextEdit::Erase, &none());
    assert_eq!(text(&editor), "ab c");
    apply_edit(&mut editor, TextEdit::EraseWord, &spaces());
    assert_eq!(text(&editor), "ab ");
    assert_eq!(editor.position(), 3);
    apply_edit(&mut editor, TextEdit::ToHead, &none());
    apply_edit(&mut editor, TextEdit::EraseForward, &none());
    assert_eq!(text(&editor), "b ");
    apply_edit(&mut editor, TextEdit::Erase, &none());
    assert_eq!(text(&editor), "b ");
    apply_edit(&mut editor, TextEdit::EraseAll, &none());
    assert_eq!(text(&editor), "");
    assert_eq!(editor.position(), 0);
}

#[test]
fn moving_by_lines_and_words() {
    let mut editor = TextEditor::new("one two\nthree");
    apply_edit(&mut editor, TextEdit::ToLineHead, &none());
    assert_eq!(editor.position(), 8);
    apply_edit(&mut editor, TextEdit::Up, &none());
    assert_eq!(text(&editor), "one two\nthree");
    apply_edit(&mut editor, TextEdit::ToLineTail, &none());
    assert_eq!(editor.position(), 7);
    apply_edit(&mut editor, TextEdit::ToPreviousWord, &spaces());
    assert_eq!(editor.position(), 4);
    apply_edit(&mut editor, TextEdit::ToHead, &none());
    apply_edit(&mut editor, TextEdit::ToNextWord, &spaces());
    assert_eq!(editor.position(), 4);
    apply_edit(&mut editor, TextEdit::Backward, &none());
    assert_eq!(editor.position(), 3);
    apply_edit(&mut editor, TextEdit::ToTail, &none());
    apply_edit(&mut editor, TextEdit::Forward, &none());
    assert_eq!(editor.position(), 13);
}

#[test]
fn moving_between_lines_reports_whether_there_is_one() {
    let mut editor = TextEditor::new("first\nsecond");
    assert!(!move_between_lines(&mut editor, true));
    assert_eq!(editor.position(), 12);
    assert!(move_between_lines(&mut editor, false));
    assert!(!move_between_lines(&mut editor, false));
    assert_eq!(text(&editor), "first\nsecond");
}

fn screen_with_a_textarea() -> InputScreen {
    let inputs = vec![
        RawInputEntry {
            name: Some("context".to_owned()),
            definition: Ok(RawInput {
                kind: RawInputKind::Select,
                allow_empty: true,
                depends_on: Vec::new(),
                candidates: Some(RawCandidates { values: Some(vec!["local".to_owned()]), command: None }),
            }),
        },
        RawInputEntry {
            name: Some("request".to_owned()),
            definition: Ok(RawInput { kind: RawInputKind::Textarea, allow_empty: true, depends_on: Vec::new(), candidates: None }),
        },
    ];
    let workflow = Workflow::from_raw(RawWorkflow { name: "test".to_owned(), inputs, template: "{{ inputs.request }}".to_owned() })
        .ok()
        .unwrap();
    let selector = WorkflowSelector::from_file("test.yaml".to_owned(), "test.yaml".to_owned(), workflow);
    InputScreen::new(selector, Vec::new())
}

#[test]
fn a_key_in_a_field_edits_its_editor_and_its_text() {
    let mut screen = screen_with_a_textarea();
    let mut editor = TextEditor::new("hi");
    screen.edit_field(1, &mut editor, Key::Char('!'), &none());
    screen.edit_field(1, &mut editor, Key::Enter, &none());
    match screen.fields()[1].control() {
        FieldControl::Textarea(text) => assert_eq!(text.iter().collect::<String>(), "hi!\n"),
        FieldControl::Select(_) => panic!("the request is a textarea"),
    }

    let mut query = TextEditor::new("lo");
    screen.edit_field(0, &mut query, Key::Enter, &none());
    assert_eq!(text(&query), "lo");
    screen.edit_field(0, &mut query, Key::Backspace, &none());
    match screen.fields()[0].control() {
        FieldControl::Select(control) => assert_eq!(control.select.query_text().iter().collect::<String>(), "l"),
        FieldControl::Textarea(_) => panic!("the context is a select"),
    }
}
