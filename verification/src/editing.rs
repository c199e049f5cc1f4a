//! Which edit a key makes in a query line or in a multi-line text, and
//! whether the edit changes the text (so that what depends on it is
//! worked out again).
use vstd::prelude::*;

use crate::screen::Key;

verus! {

/// An edit of a text with a cursor.
#[derive(Clone, Copy, Debug, PartialEq, Eq, Structural)]
pub enum TextEdit {
    /// Insert the character at the cursor.
    Insert(char),
    /// Insert a line break at the cursor.
    InsertNewline,
    /// Move the cursor one place back.
    Backward,
    /// Move the cursor one place on.
    Forward,
    /// Move the cursor to the line above.
    Up,
    /// Move the cursor to the line below.
    Down,
    /// Move the cursor to the start of the text.
    ToHead,
    /// Move the cursor to the end of the text.
    ToTail,
    /// Move the cursor to the start of its line.
    ToLineHead,
    /// Move the cursor to the end of its line.
    ToLineTail,
    /// Move the cursor back to the start of the word.
    ToPreviousWord,
    /// Move the cursor on past the next word break.
    ToNextWord,
    /// Erase the character before the cursor.
    Erase,
    /// Erase the character at the cursor.
    EraseForward,
    /// Erase the whole text.
    EraseAll,
    /// Erase back to the start of the word.
    EraseWord,
}

/// Whether `edit` changes the text, rather than only the cursor.
pub open spec fn edits_text(edit: TextEdit) -> bool {
    match edit {
        TextEdit::Insert(_) | TextEdit::InsertNewline | TextEdit::Erase | TextEdit::EraseForward
        | TextEdit::EraseAll | TextEdit::EraseWord => true,
        _ => false,
    }
}

/// The edit that `key` makes in a one-line query, if any.
pub open spec fn query_edit_for(key: Key) -> Option<TextEdit> {
    match key {
        Key::Left => Some(TextEdit::Backward),
        Key::Right => Some(TextEdit::Forward),
        Key::Control('a') => Some(TextEdit::ToHead),
        Key::Control('e') => Some(TextEdit::ToTail),
        Key::Backspace => Some(TextEdit::Erase),
        Key::Control('u') => Some(TextEdit::EraseAll),
        Key::Control('w') => Some(TextEdit::EraseWord),
        Key::Char(c) => Some(TextEdit::Insert(c)),
        _ => None,
    }
}

/// The edit that `key` makes in a multi-line text, if any.
pub open spec fn text_edit_for(key: Key) -> Option<TextEdit> {
    match key {
        Key::Enter => Some(TextEdit::InsertNewline),
        Key::Left => Some(TextEdit::Backward),
        Key::Right => Some(TextEdit::Forward),
        Key::Up => Some(TextEdit::Up),
        Key::Down => Some(TextEdit::Down),
        Key::Control('a') => Some(TextEdit::ToLineHead),
        Key::Control('e') => Some(TextEdit::ToLineTail),
        Key::Alt('b') => Some(TextEdit::ToPreviousWord),
        Key::Alt('f') => Some(TextEdit::ToNextWord),
        Key::Backspace => Some(TextEdit::Erase),
        Key::Delete => Some(TextEdit::EraseForward),
        Key::Control('u') => Some(TextEdit::EraseAll),
        Key::Control('w') => Some(TextEdit::EraseWord),
        Key::Char(c) => Some(TextEdit::Insert(c)),
        _ => None,
    }
}

impl TextEdit {
    /// Whether the edit changes the text, rather than only the cursor.
    pub fn changes_text(&self) -> (res: bool)
        ensures
            res == edits_text(*self),
    {
        match self {
            TextEdit::Insert(_) | TextEdit::InsertNewline | TextEdit::Erase | TextEdit::EraseForward
            | TextEdit::EraseAll | TextEdit::EraseWord => true,
            _ => false,
        }
    }
}

/// The edit that `key` makes in the query line of a list: moving the
/// cursor, erasing, or typing.
pub fn query_edit(key: Key) -> (res: Option<TextEdit>)
    ensures
        res == query_edit_for(key),
{
    match key {
        Key::Left => Some(TextEdit::Backward),
        Key::Right => Some(TextEdit::Forward),
        Key::Backspace => Some(TextEdit::Erase),
        Key::Char(c) => Some(TextEdit::Insert(c)),
        Key::Control(c) => if c == 'a' {
            Some(TextEdit::ToHead)
        } else if c == 'e' {
            Some(TextEdit::ToTail)
        } else if c == 'u' {
            Some(TextEdit::EraseAll)
        } else if c == 'w' {
            Some(TextEdit::EraseWord)
        } else {
            None
        },
        _ => None,
    }
}

/// The edit that `key` makes in a multi-line text: Enter breaks the line,
/// the arrows move, Control and Alt move by line and by word, and typing
/// inserts.
pub fn text_edit(key: Key) -> (res: Option<TextEdit>)
    ensures
        res == text_edit_for(key),
{
    match key {
        Key::Enter => Some(TextEdit::InsertNewline),
        Key::Left => Some(TextEdit::Backward),
        Key::Right => Some(TextEdit::Forward),
        Key::Up => Some(TextEdit::Up),
        Key::Down => Some(TextEdit::Down),
        Key::Backspace => Some(TextEdit::Erase),
        Key::Delete => Some(TextEdit::EraseForward),
        Key::Char(c) => Some(TextEdit::Insert(c)),
        Key::Control(c) => if c == 'a' {
            Some(TextEdit::ToLineHead)
        } else if c == 'e' {
            Some(TextEdit::ToLineTail)
        } else if c == 'u' {
            Some(TextEdit::EraseAll)
        } else if c == 'w' {
            Some(TextEdit::EraseWord)
        } else {
            None
        },
        Key::Alt(c) => if c == 'b' {
            Some(TextEdit::ToPreviousWord)
        } else if c == 'f' {
            Some(TextEdit::ToNextWord)
        } else {
            None
        },
        _ => None,
    }
}

} // verus!
