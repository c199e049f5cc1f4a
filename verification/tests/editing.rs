use convey::editing::{query_edit, text_edit, TextEdit};
use convey::screen::Key;

#[test]
fn query_keys_edit_the_query_line() {
    assert_eq!(query_edit(Key::Char('x')), Some(TextEdit::Insert('x')));
    assert_eq!(query_edit(Key::Backspace), Some(TextEdit::Erase));
    assert_eq!(query_edit(Key::Control('u')), Some(TextEdit::EraseAll));
    assert_eq!(query_edit(Key::Control('w')), Some(TextEdit::EraseWord));
    assert_eq!(query_edit(Key::Control('a')), Some(TextEdit::ToHead));
    assert_eq!(query_edit(Key::Control('e')), Some(TextEdit::ToTail));
    assert_eq!(query_edit(Key::Left), Some(TextEdit::Backward));
    assert_eq!(query_edit(Key::Right), Some(TextEdit::Forward));
}

#[test]
fn other_keys_leave_the_query_alone() {
    assert_eq!(query_edit(Key::Enter), None);
    assert_eq!(query_edit(Key::Delete), None);
    assert_eq!(query_edit(Key::Alt('b')), None);
    assert_eq!(query_edit(Key::Control('x')), None);
    assert_eq!(query_edit(Key::Up), None);
}

#[test]
fn textarea_keys_edit_lines() {
    assert_eq!(text_edit(Key::Enter), Some(TextEdit::InsertNewline));
    assert_eq!(text_edit(Key::Up), Some(TextEdit::Up));
    assert_eq!(text_edit(Key::Down), Some(TextEdit::Down));
    assert_eq!(text_edit(Key::Control('a')), Some(TextEdit::ToLineHead));
    assert_eq!(text_edit(Key::Control('e')), Some(TextEdit::ToLineTail));
    assert_eq!(text_edit(Key::Alt('b')), Some(TextEdit::ToPreviousWord));
    assert_eq!(text_edit(Key::Alt('f')), Some(TextEdit::ToNextWord));
    assert_eq!(text_edit(Key::Delete), Some(TextEdit::EraseForward));
    assert_eq!(text_edit(Key::Char('é')), Some(TextEdit::Insert('é')));
    assert_eq!(text_edit(Key::Tab), None);
    assert_eq!(text_edit(Key::Alt('x')), None);
}

#[test]
fn only_edits_of_the_text_ask_for_new_candidates() {
    assert!(TextEdit::Insert('a').changes_text());
    assert!(TextEdit::Erase.changes_text());
    assert!(TextEdit::EraseAll.changes_text());
    assert!(TextEdit::EraseWord.changes_text());
    assert!(TextEdit::InsertNewline.changes_text());
    assert!(TextEdit::EraseForward.changes_text());
    assert!(!TextEdit::Backward.changes_text());
    assert!(!TextEdit::ToHead.changes_text());
    assert!(!TextEdit::Up.changes_text());
}
