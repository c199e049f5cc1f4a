//! Short texts shown on the input screen: compacted values, destination
//! labels and tree branches.
use vstd::prelude::*;

use crate::automation::Terminal;
use crate::cli::{app_name, TerminalApplication};
use crate::text::{chars_of, decimal, decimal_chars, push_all, string_from_chars, trim, trimmed};

verus! {

/// The longest value that is shown whole.
pub const COMPACT_LIMIT: usize = 48;

/// `s` with each newline shown as ` ↵ `.
pub open spec fn expand_newlines(s: Seq<char>) -> Seq<char>
    decreases s.len(),
{
    if s.len() == 0 {
        Seq::empty()
    } else {
        expand_newlines(s.drop_last()) + if s.last() == '\n' {
            seq![' ', '↵', ' ']
        } else {
            seq![s.last()]
        }
    }
}

/// A value as it is shown in one line: trimmed, newlines shown as ` ↵ `,
/// cut to `COMPACT_LIMIT` characters with `…` where it is longer, and `—`
/// where nothing is left.
pub open spec fn compact_text(value: Seq<char>) -> Seq<char> {
    let e = expand_newlines(trim(value));
    if e.len() == 0 {
        seq!['—']
    } else if e.len() <= COMPACT_LIMIT {
        e
    } else {
        e.take(COMPACT_LIMIT as int).push('…')
    }
}

proof fn lemma_expand_prefix(s: Seq<char>, i: int)
    requires
        0 <= i <= s.len(),
    ensures
        expand_newlines(s.take(i)).len() <= expand_newlines(s).len(),
        expand_newlines(s) == expand_newlines(s.take(i)) + expand_newlines(s).subrange(
            expand_newlines(s.take(i)).len() as int,
            expand_newlines(s).len() as int,
        ),
    decreases s.len() - i,
{
    if i < s.len() {
        lemma_expand_prefix(s, i + 1);
        assert(s.take(i + 1).drop_last() =~= s.take(i));
        let a = expand_newlines(s.take(i));
        let b = expand_newlines(s.take(i + 1));
        let e = expand_newlines(s);
        assert(e == b + e.subrange(b.len() as int, e.len() as int));
        assert(e =~= a + e.subrange(a.len() as int, e.len() as int));
    } else {
        assert(s.take(i) =~= s);
        assert(expand_newlines(s).subrange(
            expand_newlines(s).len() as int,
            expand_newlines(s).len() as int,
        ) =~= Seq::<char>::empty());
        assert(expand_newlines(s) =~= expand_newlines(s) + Seq::<char>::empty());
    }
}

/// Shows a value in one line; see `compact_text`.
pub fn compact_value(value: &str) -> (res: String)
    ensures
        res@ == compact_text(value@),
{
    let t = trimmed(&chars_of(value));
    let ghost e = expand_newlines(t@);
    let mut compact: Vec<char> = Vec::new();
    let mut i: usize = 0;
    assert(t@.take(0) =~= Seq::<char>::empty());
    while i < t.len()
        invariant
            i <= t@.len(),
            e == expand_newlines(t@),
            t@ == trim(value@),
            compact@ == expand_newlines(t@.take(i as int)),
            compact@.len() <= COMPACT_LIMIT,
        decreases t@.len() - i,
    {
        let c = t[i];
        proof {
            assert(t@.take(i + 1).drop_last() =~= t@.take(i as int));
            lemma_expand_prefix(t@, i + 1);
        }
        let ghost next = expand_newlines(t@.take(i + 1));
        if c == '\n' {
            let replacement = [' ', '↵', ' '];
            let mut j: usize = 0;
            while j < 3
                invariant
                    j <= 3,
                    compact@ == expand_newlines(t@.take(i as int)) + next.subrange(
                        expand_newlines(t@.take(i as int)).len() as int,
                        expand_newlines(t@.take(i as int)).len() + j,
                    ),
                    next == expand_newlines(t@.take(i as int)) + seq![' ', '↵', ' '],
                    replacement@ == seq![' ', '↵', ' '],
                    compact@.len() <= COMPACT_LIMIT,
                    e == expand_newlines(t@),
                    t@ == trim(value@),
                    e == next + e.subrange(next.len() as int, e.len() as int),
                decreases 3 - j,
            {
                if compact.len() == COMPACT_LIMIT {
                    proof {
                        assert(compact@ =~= next.take(compact@.len() as int));
                        assert(next.len() > compact@.len());
                        assert(e.len() >= next.len());
                        assert(compact@ =~= e.take(COMPACT_LIMIT as int));
                        assert(e.len() > COMPACT_LIMIT);
                    }
                    compact.push('…');
                    return string_from_chars(&compact);
                }
                let ghost before = compact@;
                compact.push(replacement[j]);
                j += 1;
                assert(compact@ =~= expand_newlines(t@.take(i as int)) + next.subrange(
                    expand_newlines(t@.take(i as int)).len() as int,
                    expand_newlines(t@.take(i as int)).len() + j,
                ));
            }
            assert(compact@ =~= next);
        } else {
            if compact.len() == COMPACT_LIMIT {
                proof {
                    assert(compact@ =~= e.take(COMPACT_LIMIT as int));
                }
                compact.push('…');
                return string_from_chars(&compact);
            }
            compact.push(c);
            assert(compact@ =~= next);
        }
        i += 1;
    }
    assert(t@.take(i as int) =~= t@);
    if compact.len() == 0 {
        return empty_value();
    }
    string_from_chars(&compact)
}

/// The text shown for a value that is not set.
pub fn empty_value() -> (res: String)
    ensures
        res@ == seq!['—'],
{
    let mut v: Vec<char> = Vec::new();
    v.push('—');
    string_from_chars(&v)
}

/// The branch drawn before a row of the terminal tree: a column for each
/// ancestor below the root, then the row's own connector.
pub open spec fn tree_prefix_text(ancestor_last: Seq<bool>, depth: nat, is_last: bool) -> Seq<char> {
    if depth == 0 {
        Seq::empty()
    } else {
        ancestor_columns(below_root(ancestor_last)) + if is_last {
            seq!['└', '─', ' ']
        } else {
            seq!['├', '─', ' ']
        }
    }
}

/// The ancestors below the root.
pub open spec fn below_root(ancestor_last: Seq<bool>) -> Seq<bool> {
    if ancestor_last.len() == 0 {
        Seq::empty()
    } else {
        ancestor_last.skip(1)
    }
}

/// Blank columns below ancestors that are last among their siblings, and a
/// vertical line below the others.
pub open spec fn ancestor_columns(ancestor_last: Seq<bool>) -> Seq<char>
    decreases ancestor_last.len(),
{
    if ancestor_last.len() == 0 {
        Seq::empty()
    } else {
        ancestor_columns(ancestor_last.drop_last()) + if ancestor_last.last() {
            seq![' ', ' ', ' ']
        } else {
            seq!['│', ' ', ' ']
        }
    }
}

/// Draws the branch before a tree row.
pub fn tree_prefix(ancestor_last: &[bool], depth: usize, is_last: bool) -> (res: Vec<char>)
    ensures
        res@ == tree_prefix_text(ancestor_last@, depth as nat, is_last),
{
    if depth == 0 {
        return Vec::new();
    }
    let mut prefix: Vec<char> = Vec::new();
    let mut i: usize = 1;
    let ghost rest = below_root(ancestor_last@);
    if ancestor_last.len() > 0 {
        assert(rest.take(0) =~= Seq::<bool>::empty());
    }
    while i < ancestor_last.len()
        invariant
            1 <= i,
            i <= ancestor_last@.len() || ancestor_last@.len() == 0,
            rest == below_root(ancestor_last@),
            ancestor_last@.len() > 0 ==> prefix@ == ancestor_columns(rest.take(i - 1)),
            ancestor_last@.len() == 0 ==> prefix@ == Seq::<char>::empty(),
        decreases ancestor_last@.len() - i,
    {
        assert(rest.take(i as int).drop_last() =~= rest.take(i - 1));
        if ancestor_last[i] {
            prefix.push(' ');
            prefix.push(' ');
            prefix.push(' ');
        } else {
            prefix.push('│');
            prefix.push(' ');
            prefix.push(' ');
        }
        i += 1;
        assert(prefix@ =~= ancestor_columns(rest.take(i - 1)));
    }
    if ancestor_last.len() > 0 {
        assert(rest.take(rest.len() as int) =~= rest);
    }
    if is_last {
        prefix.push('└');
    } else {
        prefix.push('├');
    }
    prefix.push('─');
    prefix.push(' ');
    assert(prefix@ =~= tree_prefix_text(ancestor_last@, depth as nat, is_last));
    prefix
}

/// A terminal pane together with the application that hosts it.
#[derive(Clone, Debug, PartialEq, Eq)]
pub struct TerminalTarget {
    pub application: TerminalApplication,
    pub terminal: Terminal,
}

/// The application's display name.
pub open spec fn app_label(app: TerminalApplication) -> Seq<char> {
    match app {
        TerminalApplication::Ghostty => "Ghostty"@,
        TerminalApplication::Iterm2 => "iTerm2"@,
        TerminalApplication::Tmux => "tmux"@,
    }
}

/// The application's display name.
pub fn terminal_application_label(application: TerminalApplication) -> (res: &'static str)
    ensures
        res@ == app_label(application),
{
    match application {
        TerminalApplication::Ghostty => "Ghostty",
        TerminalApplication::Iterm2 => "iTerm2",
        TerminalApplication::Tmux => "tmux",
    }
}

/// `<application name>:<terminal id>`: the key that tells destinations
/// apart.
pub open spec fn target_key_text(target: TerminalTarget) -> Seq<char> {
    app_name(target.application) + seq![':'] + target.terminal.id@
}

/// The key that tells destinations apart.
pub fn target_key(target: &TerminalTarget) -> (res: Vec<char>)
    ensures
        res@ == target_key_text(*target),
{
    let mut key = chars_of(target.application.name());
    key.push(':');
    push_all(&mut key, &chars_of(target.terminal.id.as_str()));
    key
}

/// `<application> › Window <w> › Tab <t> › Pane <p> · <name> · <cwd>`.
pub open spec fn terminal_label_text(target: TerminalTarget) -> Seq<char> {
    let t = target.terminal;
    app_label(target.application) + " › Window "@ + decimal(t.window_index as nat) + " › Tab "@
        + decimal(t.tab_index as nat) + " › Pane "@ + decimal(t.terminal_index as nat) + seq![
        ' ',
        '·',
        ' ',
    ] + t.name@ + seq![' ', '·', ' '] + t.working_directory@
}

/// Describes a destination in one line.
pub fn terminal_label(target: &TerminalTarget) -> (res: String)
    ensures
        res@ == terminal_label_text(*target),
{
    let t = &target.terminal;
    let mut text = chars_of(terminal_application_label(target.application));
    push_all(&mut text, &chars_of(" › Window "));
    push_all(&mut text, &decimal_chars(t.window_index));
    push_all(&mut text, &chars_of(" › Tab "));
    push_all(&mut text, &decimal_chars(t.tab_index));
    push_all(&mut text, &chars_of(" › Pane "));
    push_all(&mut text, &decimal_chars(t.terminal_index));
    text.push(' ');
    text.push('·');
    text.push(' ');
    push_all(&mut text, &chars_of(t.name.as_str()));
    text.push(' ');
    text.push('·');
    text.push(' ');
    push_all(&mut text, &chars_of(t.working_directory.as_str()));
    assert(text@ =~= terminal_label_text(*target));
    string_from_chars(&text)
}

} // verus!
