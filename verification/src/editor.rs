//! The text editor that holds a query or an input's text with its cursor,
//! and the edits that keys make in it.
use vstd::prelude::*;

use std::collections::HashSet;

use promkit::widgets::text_editor::TextEditor;

use crate::editing::TextEdit;

verus! {

/// promkit's text editor: its characters with a cursor, which stands
/// before a character or at the end.
#[verifier::external_type_specification]
#[verifier::external_body]
pub struct ExTextEditor(promkit::widgets::text_editor::TextEditor);

/// The characters an editor holds, without the cursor's place at the end.
pub uninterp spec fn editor_text(editor: TextEditor) -> Seq<char>;

/// The position of an editor's cursor among its characters.
pub uninterp spec fn editor_cursor(editor: TextEditor) -> nat;

/// The editor's characters, from `TextEditor::text_without_cursor`.
#[verifier::external_body]
fn text_without_cursor(editor: &TextEditor) -> (res: Vec<char>)
    ensures
        res@ == editor_text(*editor),
{
    editor.text_without_cursor().chars()
}

/// The cursor, from `TextEditor::position`, which never passes the end of
/// the text.
#[verifier::external_body]
fn position(editor: &TextEditor) -> (res: usize)
    ensures
        res == editor_cursor(*editor),
        res <= editor_text(*editor).len(),
{
    editor.position()
}

/// The last position before `n` that holds one of `breaks`, or -1.
pub open spec fn last_break_before(t: Seq<char>, n: int, breaks: Set<char>) -> int
    decreases n,
{
    if n <= 0 {
        -1
    } else if breaks.contains(t[n - 1]) {
        n - 1
    } else {
        last_break_before(t, n - 1, breaks)
    }
}

/// Where the cursor at `p` moves back to a word's start: just after the
/// nearest break before `p - 1`, or the start of the text.
pub open spec fn previous_word(t: Seq<char>, p: nat, breaks: Set<char>) -> nat {
    (last_break_before(t, p - 1, breaks) + 1) as nat
}

/// Where the cursor at `p` moves on to: just after the first break after
/// `p`, or the end of the text.
pub open spec fn next_word(t: Seq<char>, k: int, breaks: Set<char>) -> nat
    decreases t.len() - k,
{
    if k >= t.len() {
        t.len()
    } else if k >= 0 && breaks.contains(t[k]) {
        (k + 1) as nat
    } else {
        next_word(t, k + 1, breaks)
    }
}

/// The start of the line that holds the cursor at `p`.
pub open spec fn line_head(t: Seq<char>, p: nat) -> nat {
    (last_break_before(t, p as int, set!['\n']) + 1) as nat
}

/// The end of the line that holds the cursor at `p`: its line break, or
/// the end of the text.
pub open spec fn line_tail(t: Seq<char>, k: int) -> nat
    decreases t.len() - k,
{
    if k >= t.len() {
        t.len()
    } else if k >= 0 && t[k] == '\n' {
        k as nat
    } else {
        line_tail(t, k + 1)
    }
}

/// What `edit` makes of the text `t` with the cursor at `p`, where the
/// text alone decides it: moving up or down a line also depends on the
/// column the editor remembers from earlier moves.
pub open spec fn edit_outcome(t: Seq<char>, p: nat, edit: TextEdit, breaks: Set<char>) -> Option<(Seq<char>, nat)> {
    match edit {
        TextEdit::Insert(c) => Some((t.take(p as int) + seq![c] + t.skip(p as int), p + 1)),
        TextEdit::InsertNewline => Some((t.take(p as int) + seq!['\n'] + t.skip(p as int), p + 1)),
        TextEdit::Backward => Some((t, if p > 0 { (p - 1) as nat } else { p })),
        TextEdit::Forward => Some((t, if p < t.len() { p + 1 } else { p })),
        TextEdit::Up | TextEdit::Down => None,
        TextEdit::ToHead => Some((t, 0)),
        TextEdit::ToTail => Some((t, t.len())),
        TextEdit::ToLineHead => Some((t, line_head(t, p))),
        TextEdit::ToLineTail => Some((t, line_tail(t, p as int))),
        TextEdit::ToPreviousWord => Some((t, previous_word(t, p, breaks))),
        TextEdit::ToNextWord => Some((t, next_word(t, p + 1int, breaks))),
        TextEdit::Erase => Some(
            if p > 0 {
                (t.take(p - 1) + t.skip(p as int), (p - 1) as nat)
            } else {
                (t, p)
            },
        ),
        TextEdit::EraseForward => Some(
            if p < t.len() {
                (t.take(p as int) + t.skip(p + 1int), p)
            } else {
                (t, p)
            },
        ),
        TextEdit::EraseAll => Some((Seq::empty(), 0)),
        TextEdit::EraseWord => {
            let w = previous_word(t, p, breaks);
            Some((t.take(w as int) + t.skip(p as int), w))
        },
    }
}

/// The line above exists: a line break stands before the cursor.
pub open spec fn has_line_above(t: Seq<char>, p: nat) -> bool {
    exists|j: int| 0 <= j < p && t[j] == '\n'
}

/// The line below exists: a line break stands at or after the cursor.
pub open spec fn has_line_below(t: Seq<char>, p: nat) -> bool {
    exists|j: int| p <= j < t.len() && t[j] == '\n'
}

proof fn lemma_last_break_before(t: Seq<char>, n: int, breaks: Set<char>)
    ensures
        -1 <= last_break_before(t, n, breaks) < if n > 0 { n } else { 0 },
    decreases n,
{
    if n > 0 {
        lemma_last_break_before(t, n - 1, breaks);
    }
}

proof fn lemma_forward_bounds(t: Seq<char>, k: int, breaks: Set<char>)
    ensures
        next_word(t, k, breaks) <= t.len(),
        line_tail(t, k) <= t.len(),
    decreases t.len() - k,
{
    if k < t.len() {
        lemma_forward_bounds(t, k + 1, breaks);
    }
}

/// `TextEditor::insert`: the character goes in at the cursor, which
/// moves past it.
#[verifier::external_body]
fn insert(editor: &mut TextEditor, c: char)
    ensures
        editor_text(*final(editor)) == editor_text(*old(editor)).take(editor_cursor(*old(editor)) as int) + seq![c]
            + editor_text(*old(editor)).skip(editor_cursor(*old(editor)) as int),
        editor_cursor(*final(editor)) == editor_cursor(*old(editor)) + 1,
{
    editor.insert(c)
}

/// `TextEditor::backward`: the cursor moves one place back where it can.
#[verifier::external_body]
fn backward(editor: &mut TextEditor)
    ensures
        editor_text(*final(editor)) == editor_text(*old(editor)),
        editor_cursor(*final(editor)) == if editor_cursor(*old(editor)) > 0 {
            (editor_cursor(*old(editor)) - 1) as nat
        } else {
            editor_cursor(*old(editor))
        },
{
    editor.backward();
}

/// `TextEditor::forward`: the cursor moves one place on where it can.
#[verifier::external_body]
fn forward(editor: &mut TextEditor)
    ensures
        editor_text(*final(editor)) == editor_text(*old(editor)),
        editor_cursor(*final(editor)) == if editor_cursor(*old(editor)) < editor_text(*old(editor)).len() {
            editor_cursor(*old(editor)) + 1
        } else {
            editor_cursor(*old(editor))
        },
{
    editor.forward();
}

/// `TextEditor::move_up`: where a line lies above, the cursor moves into
/// it, at a column that the editor remembers from earlier vertical moves;
/// the contract leaves that column unsaid and says only that the cursor
/// stays within the text.
#[verifier::external_body]
fn move_up(editor: &mut TextEditor) -> (res: bool)
    ensures
        editor_text(*final(editor)) == editor_text(*old(editor)),
        res == has_line_above(editor_text(*old(editor)), editor_cursor(*old(editor))),
        !res ==> editor_cursor(*final(editor)) == editor_cursor(*old(editor)),
        editor_cursor(*final(editor)) <= editor_text(*final(editor)).len(),
{
    editor.move_up()
}

/// `TextEditor::move_down`: as `move_up`, for the line below.
#[verifier::external_body]
fn move_down(editor: &mut TextEditor) -> (res: bool)
    ensures
        editor_text(*final(editor)) == editor_text(*old(editor)),
        res == has_line_below(editor_text(*old(editor)), editor_cursor(*old(editor))),
        !res ==> editor_cursor(*final(editor)) == editor_cursor(*old(editor)),
        editor_cursor(*final(editor)) <= editor_text(*final(editor)).len(),
{
    editor.move_down()
}

/// `TextEditor::move_to_head`: the cursor goes to the start.
#[verifier::external_body]
fn move_to_head(editor: &mut TextEditor)
    ensures
        editor_text(*final(editor)) == editor_text(*old(editor)),
        editor_cursor(*final(editor)) == 0,
{
    editor.move_to_head()
}

/// `TextEditor::move_to_tail`: the cursor goes to the end.
#[verifier::external_body]
fn move_to_tail(editor: &mut TextEditor)
    ensures
        editor_text(*final(editor)) == editor_text(*old(editor)),
        editor_cursor(*final(editor)) == editor_text(*old(editor)).len(),
{
    editor.move_to_tail()
}

/// `TextEditor::move_to_line_head`: the cursor goes to the start of its
/// line.
#[verifier::external_body]
fn move_to_line_head(editor: &mut TextEditor)
    ensures
        editor_text(*final(editor)) == editor_text(*old(editor)),
        editor_cursor(*final(editor)) == line_head(editor_text(*old(editor)), editor_cursor(*old(editor))),
{
    editor.move_to_line_head()
}

/// `TextEditor::move_to_line_tail`: the cursor goes to the end of its
/// line.
#[verifier::external_body]
fn move_to_line_tail(editor: &mut TextEditor)
    ensures
        editor_text(*final(editor)) == editor_text(*old(editor)),
        editor_cursor(*final(editor)) == line_tail(editor_text(*old(editor)), editor_cursor(*old(editor)) as int),
{
    editor.move_to_line_tail()
}

/// `TextEditor::move_to_previous_nearest`, `breaks` being the characters
/// that end a word.
#[verifier::external_body]
fn move_to_previous_nearest(editor: &mut TextEditor, breaks: &HashSet<char>)
    ensures
        editor_text(*final(editor)) == editor_text(*old(editor)),
        editor_cursor(*final(editor)) == previous_word(editor_text(*old(editor)), editor_cursor(*old(editor)), breaks@),
{
    editor.move_to_previous_nearest(breaks)
}

/// `TextEditor::move_to_next_nearest`, `breaks` being the characters
/// that end a word.
#[verifier::external_body]
fn move_to_next_nearest(editor: &mut TextEditor, breaks: &HashSet<char>)
    ensures
        editor_text(*final(editor)) == editor_text(*old(editor)),
        editor_cursor(*final(editor)) == next_word(editor_text(*old(editor)), editor_cursor(*old(editor)) + 1int, breaks@),
{
    editor.move_to_next_nearest(breaks)
}

/// `TextEditor::erase`: the character before the cursor goes, where
/// there is one.
#[verifier::external_body]
fn erase(editor: &mut TextEditor)
    ensures
        editor_cursor(*old(editor)) > 0 ==> editor_text(*final(editor)) == editor_text(*old(editor)).take(
            editor_cursor(*old(editor)) - 1,
        ) + editor_text(*old(editor)).skip(editor_cursor(*old(editor)) as int) && editor_cursor(*final(editor))
            == editor_cursor(*old(editor)) - 1,
        editor_cursor(*old(editor)) == 0 ==> *final(editor) == *old(editor),
{
    editor.erase()
}

/// `TextEditor::erase_forward`: the character at the cursor goes, where
/// there is one.
#[verifier::external_body]
fn erase_forward(editor: &mut TextEditor)
    ensures
        editor_text(*final(editor)) == if editor_cursor(*old(editor)) < editor_text(*old(editor)).len() {
            editor_text(*old(editor)).take(editor_cursor(*old(editor)) as int) + editor_text(*old(editor)).skip(
                editor_cursor(*old(editor)) + 1int,
            )
        } else {
            editor_text(*old(editor))
        },
        editor_cursor(*final(editor)) == editor_cursor(*old(editor)),
{
    editor.erase_forward()
}

/// `TextEditor::erase_all`: the editor is emptied.
#[verifier::external_body]
fn erase_all(editor: &mut TextEditor)
    ensures
        editor_text(*final(editor)) == Seq::<char>::empty(),
        editor_cursor(*final(editor)) == 0,
{
    editor.erase_all()
}

/// `TextEditor::erase_to_previous_nearest`, `breaks` being the characters
/// that end a word: the text from the word's start to the
/// cursor goes.
#[verifier::external_body]
fn erase_to_previous_nearest(editor: &mut TextEditor, breaks: &HashSet<char>)
    ensures
        ({
            let t = editor_text(*old(editor));
            let p = editor_cursor(*old(editor));
            let w = previous_word(t, p, breaks@);
            &&& editor_text(*final(editor)) == t.take(w as int) + t.skip(p as int)
            &&& editor_cursor(*final(editor)) == w
        }),
{
    editor.erase_to_previous_nearest(breaks)
}

/// `after` is `before` with `edit` made: where the text decides the
/// outcome, that outcome; else the same text with the cursor within it.
pub open spec fn edit_made(before: TextEditor, after: TextEditor, edit: TextEdit, breaks: Set<char>) -> bool {
    &&& editor_cursor(after) <= editor_text(after).len()
    &&& match edit_outcome(editor_text(before), editor_cursor(before), edit, breaks) {
        Some((t, p)) => editor_text(after) == t && editor_cursor(after) == p,
        None => editor_text(after) == editor_text(before),
    }
}

/// Makes `edit` in `editor`, `breaks` being the characters that end a
/// word.
pub fn apply_edit(editor: &mut TextEditor, edit: TextEdit, breaks: &HashSet<char>)
    ensures
        edit_made(*old(editor), *final(editor), edit, breaks@),
{
    let _ = position(editor);
    let ghost t = editor_text(*editor);
    let ghost p = editor_cursor(*editor);
    proof {
        lemma_last_break_before(t, p - 1, breaks@);
        lemma_last_break_before(t, p as int, set!['\n']);
        lemma_forward_bounds(t, p + 1int, breaks@);
        lemma_forward_bounds(t, p as int, breaks@);
    }
    match edit {
        TextEdit::Insert(c) => {
            insert(editor, c);
            assert((t.take(p as int) + seq![c] + t.skip(p as int)).len() == t.len() + 1);
        },
        TextEdit::InsertNewline => {
            insert(editor, '\n');
            assert((t.take(p as int) + seq!['\n'] + t.skip(p as int)).len() == t.len() + 1);
        },
        TextEdit::Backward => backward(editor),
        TextEdit::Forward => forward(editor),
        TextEdit::Up => {
            move_up(editor);
        },
        TextEdit::Down => {
            move_down(editor);
        },
        TextEdit::ToHead => move_to_head(editor),
        TextEdit::ToTail => move_to_tail(editor),
        TextEdit::ToLineHead => move_to_line_head(editor),
        TextEdit::ToLineTail => move_to_line_tail(editor),
        TextEdit::ToPreviousWord => move_to_previous_nearest(editor, breaks),
        TextEdit::ToNextWord => move_to_next_nearest(editor, breaks),
        TextEdit::Erase => erase(editor),
        TextEdit::EraseForward => erase_forward(editor),
        TextEdit::EraseAll => erase_all(editor),
        TextEdit::EraseWord => erase_to_previous_nearest(editor, breaks),
    }
}

/// Moves the cursor of a multi-line text to the line above or below where
/// there is one; says whether it moved. The text stays as it is.
pub fn move_between_lines(editor: &mut TextEditor, down: bool) -> (res: bool)
    ensures
        editor_text(*final(editor)) == editor_text(*old(editor)),
        res == if down {
            has_line_below(editor_text(*old(editor)), editor_cursor(*old(editor)))
        } else {
            has_line_above(editor_text(*old(editor)), editor_cursor(*old(editor)))
        },
        !res ==> editor_cursor(*final(editor)) == editor_cursor(*old(editor)),
        editor_cursor(*final(editor)) <= editor_text(*final(editor)).len(),
{
    let _ = position(editor);
    if down {
        move_down(editor)
    } else {
        move_up(editor)
    }
}

/// The text that an editor holds.
pub fn text_of(editor: &TextEditor) -> (res: Vec<char>)
    ensures
        res@ == editor_text(*editor),
{
    text_without_cursor(editor)
}

} // verus!
