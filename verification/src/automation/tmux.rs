//! The tmux pane listing: how `tmux list-panes` output becomes terminals,
//! and which tmux failures mean that there is simply nothing to list.
use vstd::prelude::*;
use vstd::utf8::{decode_utf8, valid_utf8};

use crate::automation::Terminal;
use crate::input::string_views;
use crate::order::{
    count_eq, count_first, distinct_order, lemma_count_eq_le_len, lemma_count_eq_push,
    lemma_count_first_le_len, lemma_count_first_push, lemma_distinct_order_push,
};
use crate::text::{
    chars_eq, chars_of, decimal, decimal_chars, ends_with, is_prefix, is_suffix,
    lines, lines_of, push_all, split_chars, split_on, starts_with, string_from_chars, trim,
    trimmed, views,
};

verus! {

/// The character that separates the fields of one pane record.
pub const FIELD_SEPARATOR: char = '\u{1f}';

/// The `-F` format handed to `tmux list-panes`: eight fields separated by
/// `FIELD_SEPARATOR`.
pub const LIST_FORMAT: &'static str = "#{session_id}\u{1f}#{session_name}\u{1f}#{window_id}\u{1f}#{window_name}\u{1f}#{pane_id}\u{1f}#{pane_title}\u{1f}#{pane_current_command}\u{1f}#{pane_current_path}";

// ---------------------------------------------------------------------------
// Outside calls
// ---------------------------------------------------------------------------

/// Decodes bytes with `std::str::from_utf8`; the contract claims that it
/// succeeds exactly on valid UTF-8 and then yields the decoded characters.
#[verifier::external_body]
pub(crate) fn utf8_str(bytes: &[u8]) -> (res: Option<&str>)
    ensures
        res is Some == valid_utf8(bytes@),
        res matches Some(s) ==> s@ == decode_utf8(bytes@),
{
    std::str::from_utf8(bytes).ok()
}

/// What `String::from_utf8_lossy` makes of `bytes`: invalid sequences
/// become U+FFFD.
pub uninterp spec fn utf8_lossy(bytes: Seq<u8>) -> Seq<char>;

/// Decodes bytes with `String::from_utf8_lossy`; the contract claims the
/// named result, which on valid UTF-8 is the plain decoding.
#[verifier::external_body]
pub(crate) fn lossy_string(bytes: &[u8]) -> (res: String)
    ensures
        res@ == utf8_lossy(bytes@),
        valid_utf8(bytes@) ==> res@ == decode_utf8(bytes@),
{
    String::from_utf8_lossy(bytes).into_owned()
}

/// What `std::str::from_utf8` reports of bytes that are not UTF-8.
pub uninterp spec fn utf8_error_text(bytes: Seq<u8>) -> Seq<char>;

/// The text of the error that `std::str::from_utf8` returns for `bytes`;
/// the contract claims the named result.
#[verifier::external_body]
pub(crate) fn utf8_error(bytes: &[u8]) -> (res: String)
    requires
        !valid_utf8(bytes@),
    ensures
        res@ == utf8_error_text(bytes@),
{
    match std::str::from_utf8(bytes) {
        Ok(_) => String::new(),
        Err(e) => e.to_string(),
    }
}

// ---------------------------------------------------------------------------
// Pane records
// ---------------------------------------------------------------------------

/// The fields of one line of the listing.
pub open spec fn fields_of(line: Seq<char>) -> Seq<Seq<char>> {
    split_on(line, FIELD_SEPARATOR)
}

pub open spec fn session_of(line: Seq<char>) -> Seq<char> {
    fields_of(line)[0]
}

/// A pane's window, identified by session id and window id.
pub open spec fn window_key(line: Seq<char>) -> (Seq<char>, Seq<char>) {
    (fields_of(line)[0], fields_of(line)[2])
}

/// The pane title, or the running command where the title is empty.
pub open spec fn pane_label(title: Seq<char>, command: Seq<char>) -> Seq<char> {
    if title.len() == 0 {
        command
    } else {
        title
    }
}

/// `session:window`, followed by ` · label` where the label is not empty.
pub open spec fn pane_name(line: Seq<char>) -> Seq<char> {
    let f = fields_of(line);
    let label = pane_label(f[5], f[6]);
    let base = f[1] + seq![':'] + f[3];
    if label.len() == 0 {
        base
    } else {
        base + seq![' ', '·', ' '] + label
    }
}

pub open spec fn sessions_seen(lines: Seq<Seq<char>>) -> Seq<Seq<char>> {
    lines.map_values(|l: Seq<char>| session_of(l))
}

pub open spec fn windows_seen(lines: Seq<Seq<char>>) -> Seq<(Seq<char>, Seq<char>)> {
    lines.map_values(|l: Seq<char>| window_key(l))
}

/// `t` is the terminal that line `i` of `lines` describes:
/// - its window index is the one-based position of its session among the
///   sessions in order of first appearance;
/// - its tab index counts the distinct windows of its session, in order of
///   first appearance, up to and including its own;
/// - its terminal index counts the lines so far that name its window.
pub open spec fn describes_pane(lines: Seq<Seq<char>>, i: int, t: Terminal) -> bool {
    let line = lines[i];
    let f = fields_of(line);
    let seen = lines.take(i + 1);
    let sessions = distinct_order(sessions_seen(seen));
    let windows = distinct_order(windows_seen(seen));
    &&& t.id@ == f[4]
    &&& t.name@ == pane_name(line)
    &&& t.working_directory@ == f[7]
    &&& 1 <= t.window_index <= sessions.len()
    &&& sessions[t.window_index - 1] == f[0]
    &&& exists|k: int|
        0 <= k < windows.len() && windows[k] == window_key(line) && t.tab_index == count_first(
            #[trigger] windows.take(k + 1),
            f[0],
        )
    &&& t.terminal_index == count_eq(windows_seen(seen), window_key(line))
}

/// Why a listing could not be read.
#[derive(Clone, Debug, PartialEq, Eq)]
pub enum TargetsError {
    /// The listing is not UTF-8; what decoding it reported.
    NotUtf8(String),
    /// Line `line` (one-based) has `fields` fields instead of eight.
    FieldCount { line: usize, fields: usize },
}

/// The text of a listing error.
pub open spec fn targets_error_text(e: TargetsError) -> Seq<char> {
    match e {
        TargetsError::NotUtf8(why) => "tmux output is not UTF-8: "@ + why@,
        TargetsError::FieldCount { line, fields } => "expected 8 fields on line "@ + decimal(line as nat)
            + ", got "@ + decimal(fields as nat),
    }
}

impl TargetsError {
    /// The error as text.
    pub fn message(&self) -> (res: String)
        ensures
            res@ == targets_error_text(*self),
    {
        match self {
            TargetsError::NotUtf8(why) => {
                let mut text = chars_of("tmux output is not UTF-8: ");
                push_all(&mut text, &chars_of(why.as_str()));
                string_from_chars(&text)
            },
            TargetsError::FieldCount { line, fields } => {
                let mut text = chars_of("expected 8 fields on line ");
                push_all(&mut text, &decimal_chars(*line));
                push_all(&mut text, &chars_of(", got "));
                push_all(&mut text, &decimal_chars(*fields));
                string_from_chars(&text)
            },
        }
    }
}

pub open spec fn pair_views(v: Seq<(Vec<char>, Vec<char>)>) -> Seq<(Seq<char>, Seq<char>)> {
    v.map_values(|p: (Vec<char>, Vec<char>)| (p.0@, p.1@))
}

fn copy_chars(v: &[char]) -> (res: Vec<char>)
    ensures
        res@ == v@,
{
    let mut res: Vec<char> = Vec::new();
    push_all(&mut res, v);
    assert(res@ =~= v@);
    res
}

fn find_chars(list: &Vec<Vec<char>>, x: &[char]) -> (res: Option<usize>)
    ensures
        match res {
            Some(k) => k < list@.len() && views(list@)[k as int] == x@,
            None => !views(list@).contains(x@),
        },
{
    let mut k: usize = 0;
    while k < list.len()
        invariant
            k <= list@.len(),
            forall|j: int| 0 <= j < k ==> views(list@)[j] != x@,
        decreases list@.len() - k,
    {
        if chars_eq(&list[k], x) {
            return Some(k);
        }
        k += 1;
    }
    assert forall|j: int| 0 <= j < views(list@).len() implies views(list@)[j] != x@ by {}
    None
}

fn find_pair(list: &Vec<(Vec<char>, Vec<char>)>, a: &[char], b: &[char]) -> (res: Option<
    usize,
>)
    ensures
        match res {
            Some(k) => k < list@.len() && pair_views(list@)[k as int] == (a@, b@),
            None => !pair_views(list@).contains((a@, b@)),
        },
{
    let mut k: usize = 0;
    while k < list.len()
        invariant
            k <= list@.len(),
            forall|j: int| 0 <= j < k ==> pair_views(list@)[j] != (a@, b@),
        decreases list@.len() - k,
    {
        if chars_eq(&list[k].0, a) && chars_eq(&list[k].1, b) {
            return Some(k);
        }
        k += 1;
    }
    assert forall|j: int| 0 <= j < pair_views(list@).len() implies pair_views(list@)[j] != (
        a@,
        b@,
    ) by {}
    None
}

/// How many of the first `k + 1` pairs have `a` as their first component.
fn count_first_upto(list: &Vec<(Vec<char>, Vec<char>)>, k: usize, a: &[char]) -> (res: usize)
    requires
        k < list@.len(),
    ensures
        res == count_first(pair_views(list@).take(k + 1), a@),
{
    let n = list.len();
    let mut count: usize = 0;
    let mut m: usize = 0;
    while m <= k
        invariant
            n == list@.len(),
            k < list@.len(),
            m <= k + 1,
            count == count_first(pair_views(list@).take(m as int), a@),
            count <= m,
        decreases k + 1 - m,
    {
        proof {
            assert(pair_views(list@).take(m + 1) =~= pair_views(list@).take(m as int).push(
                pair_views(list@)[m as int],
            ));
            lemma_count_first_push(
                pair_views(list@).take(m as int),
                pair_views(list@)[m as int],
                a@,
            );
        }
        if chars_eq(&list[m].0, a) {
            count += 1;
        }
        m += 1;
    }
    count
}

/// How many pairs equal `(a, b)`.
fn count_pair(list: &Vec<(Vec<char>, Vec<char>)>, a: &[char], b: &[char]) -> (res: usize)
    ensures
        res == count_eq(pair_views(list@), (a@, b@)),
{
    let mut count: usize = 0;
    let mut m: usize = 0;
    while m < list.len()
        invariant
            m <= list@.len(),
            count == count_eq(pair_views(list@).take(m as int), (a@, b@)),
            count <= m,
        decreases list@.len() - m,
    {
        proof {
            assert(pair_views(list@).take(m + 1) =~= pair_views(list@).take(m as int).push(
                pair_views(list@)[m as int],
            ));
            lemma_count_eq_push(pair_views(list@).take(m as int), pair_views(list@)[m as int], (a@, b@));
        }
        if chars_eq(&list[m].0, a) && chars_eq(&list[m].1, b) {
            count += 1;
        }
        m += 1;
    }
    assert(pair_views(list@).take(list@.len() as int) =~= pair_views(list@));
    count
}

fn build_pane_name(fields: &Vec<Vec<char>>) -> (res: Vec<char>)
    requires
        fields@.len() == 8,
    ensures
        res@ == ({
            let f = views(fields@);
            let label = pane_label(f[5], f[6]);
            let base = f[1] + seq![':'] + f[3];
            if label.len() == 0 {
                base
            } else {
                base + seq![' ', '·', ' '] + label
            }
        }),
{
    let label: &Vec<char> = if fields[5].len() == 0 {
        &fields[6]
    } else {
        &fields[5]
    };
    let mut name: Vec<char> = Vec::new();
    push_all(&mut name, &fields[1]);
    name.push(':');
    push_all(&mut name, &fields[3]);
    if label.len() > 0 {
        name.push(' ');
        name.push('·');
        name.push(' ');
        push_all(&mut name, label);
    }
    proof {
        let f = views(fields@);
        assert(f[1] == fields@[1]@);
        assert(f[3] == fields@[3]@);
        assert(f[5] == fields@[5]@);
        assert(f[6] == fields@[6]@);
        if label@.len() == 0 {
            assert(name@ =~= f[1] + seq![':'] + f[3]);
        } else {
            assert(name@ =~= f[1] + seq![':'] + f[3] + seq![' ', '·', ' '] + pane_label(f[5], f[6]));
        }
    }
    name
}

/// `res` is what reading `output` gives: not UTF-8; the first line without
/// eight fields; or, every line having eight, one terminal per line, the
/// one the line describes.
pub open spec fn parsed(output: Seq<u8>, res: Result<Vec<Terminal>, TargetsError>) -> bool {
    match res {
        Err(TargetsError::NotUtf8(why)) => !valid_utf8(output) && why@ == utf8_error_text(output),
        Err(TargetsError::FieldCount { line, fields }) => valid_utf8(output) && ({
            let ls = lines_of(decode_utf8(output));
            &&& 1 <= line <= ls.len()
            &&& fields == fields_of(ls[line - 1]).len()
            &&& fields != 8
            &&& forall|j: int| 0 <= j < line - 1 ==> #[trigger] fields_of(ls[j]).len() == 8
        }),
        Ok(terminals) => valid_utf8(output) && ({
            let ls = lines_of(decode_utf8(output));
            &&& forall|j: int| 0 <= j < ls.len() ==> #[trigger] fields_of(ls[j]).len() == 8
            &&& terminals.len() == ls.len()
            &&& forall|j: int| 0 <= j < ls.len() ==> describes_pane(ls, j, #[trigger] terminals@[j])
        }),
    }
}

/// Reads the output of `tmux list-panes -a -F LIST_FORMAT` into terminals,
/// one per line, assigning one-based window, tab and terminal indices in
/// order of first appearance.
pub fn parse_targets(output: &[u8]) -> (res: Result<Vec<Terminal>, TargetsError>)
    ensures
        parsed(output@, res),
{
    let text = match utf8_str(output) {
        Some(text) => text,
        None => return Err(TargetsError::NotUtf8(utf8_error(output))),
    };
    let chars = chars_of(text);
    let ls = lines(&chars);
    let ghost lv = lines_of(decode_utf8(output@));
    let mut sessions: Vec<Vec<char>> = Vec::new();
    let mut windows: Vec<(Vec<char>, Vec<char>)> = Vec::new();
    let mut every_window: Vec<(Vec<char>, Vec<char>)> = Vec::new();
    let mut terminals: Vec<Terminal> = Vec::new();
    let mut i: usize = 0;
    assert(lv.take(0) =~= Seq::<Seq<char>>::empty());
    assert(sessions_seen(lv.take(0)) =~= Seq::<Seq<char>>::empty());
    assert(windows_seen(lv.take(0)) =~= Seq::<(Seq<char>, Seq<char>)>::empty());
    while i < ls.len()
        invariant
            valid_utf8(output@),
            lv == lines_of(decode_utf8(output@)),
            views(ls@) == lv,
            i <= ls@.len(),
            forall|j: int| 0 <= j < i ==> #[trigger] fields_of(lv[j]).len() == 8,
            views(sessions@) == distinct_order(sessions_seen(lv.take(i as int))),
            pair_views(windows@) == distinct_order(windows_seen(lv.take(i as int))),
            pair_views(every_window@) == windows_seen(lv.take(i as int)),
            sessions@.len() <= i,
            windows@.len() <= i,
            terminals@.len() == i,
            forall|j: int| 0 <= j < i ==> describes_pane(lv, j, #[trigger] terminals@[j]),
        decreases ls@.len() - i,
    {
        let line = &ls[i];
        assert(line@ == lv[i as int]);
        let fields = split_chars(line, FIELD_SEPARATOR);
        if fields.len() != 8 {
            return Err(TargetsError::FieldCount { line: i + 1, fields: fields.len() });
        }
        let ghost f = views(fields@);
        assert(f == fields_of(lv[i as int]));
        let ghost seen = lv.take(i + 1);
        assert(seen =~= lv.take(i as int).push(lv[i as int]));
        assert(sessions_seen(seen) =~= sessions_seen(lv.take(i as int)).push(f[0]));
        assert(windows_seen(seen) =~= windows_seen(lv.take(i as int)).push((f[0], f[2])));
        proof {
            lemma_distinct_order_push(sessions_seen(lv.take(i as int)), f[0]);
            lemma_distinct_order_push(windows_seen(lv.take(i as int)), (f[0], f[2]));
            lemma_count_eq_push(windows_seen(lv.take(i as int)), (f[0], f[2]), (f[0], f[2]));
            lemma_count_eq_le_len(windows_seen(seen), (f[0], f[2]));
        }
        let session = &fields[0];
        let window = &fields[2];
        assert(session@ == f[0]);
        assert(window@ == f[2]);

        let window_index = match find_chars(&sessions, session) {
            Some(k) => k + 1,
            None => {
                let ghost before = sessions@;
                sessions.push(copy_chars(session));
                assert(views(sessions@) =~= views(before).push(f[0]));
                sessions.len()
            },
        };

        let k = match find_pair(&windows, session, window) {
            Some(k) => k,
            None => {
                let ghost before = windows@;
                windows.push((copy_chars(session), copy_chars(window)));
                assert(pair_views(windows@) =~= pair_views(before).push((f[0], f[2])));
                windows.len() - 1
            },
        };
        let tab_index = count_first_upto(&windows, k, session);

        let ghost before_every = every_window@;
        every_window.push((copy_chars(session), copy_chars(window)));
        assert(pair_views(every_window@) =~= pair_views(before_every).push((f[0], f[2])));
        let terminal_index = count_pair(&every_window, session, window);

        let name = build_pane_name(&fields);
        let terminal = Terminal {
            id: string_from_chars(&fields[4]),
            name: string_from_chars(&name),
            working_directory: string_from_chars(&fields[7]),
            window_index,
            tab_index,
            terminal_index,
        };
        proof {
            assert(f[4] == fields@[4]@);
            assert(f[7] == fields@[7]@);
            let windows_d = distinct_order(windows_seen(seen));
            assert(windows_d.take(k + 1) == pair_views(windows@).take(k + 1));
            assert(windows_d[k as int] == window_key(lv[i as int]));
            assert(describes_pane(lv, i as int, terminal));
        }
        let ghost before_terminals = terminals@;
        terminals.push(terminal);
        assert(terminals@ =~= before_terminals.push(terminal));
        i += 1;
    }
    assert(lv.take(ls@.len() as int) =~= lv);
    Ok(terminals)
}

// ---------------------------------------------------------------------------
// tmux failures
// ---------------------------------------------------------------------------

/// Trimmed tmux error text that means there are no panes rather than that
/// tmux failed: no server, no sessions, or no socket to connect to.
pub open spec fn means_no_targets(s: Seq<char>) -> bool {
    ||| s == "no current target"@
    ||| s == "no sessions"@
    ||| is_prefix("no server running on "@, s)
    ||| (is_prefix("error connecting to "@, s) && (is_suffix("(No such file or directory)"@, s)
        || is_suffix("(Connection refused)"@, s)))
}

/// Whether tmux's standard error reports an absent or empty server.
pub fn is_no_targets_error(stderr: &[u8]) -> (res: bool)
    ensures
        res == means_no_targets(trim(utf8_lossy(stderr@))),
{
    let text = lossy_string(stderr);
    let s = trimmed(&chars_of(text.as_str()));
    chars_eq(&s, &chars_of("no current target")) || chars_eq(&s, &chars_of("no sessions"))
        || starts_with(&s, &chars_of("no server running on ")) || (starts_with(
        &s,
        &chars_of("error connecting to "),
    ) && (ends_with(&s, &chars_of("(No such file or directory)")) || ends_with(
        &s,
        &chars_of("(Connection refused)"),
    )))
}

/// The message for a failed tmux command: `tmux failed: ` and its trimmed
/// standard error.
pub fn command_error(stderr: &[u8]) -> (res: String)
    ensures
        res@ == "tmux failed: "@ + trim(utf8_lossy(stderr@)),
{
    let text = lossy_string(stderr);
    let mut message = chars_of("tmux failed: ");
    push_all(&mut message, &trimmed(&chars_of(text.as_str())));
    string_from_chars(&message)
}

/// What a run of `tmux list-panes` that ended with `success` comes to: the
/// panes it lists; none where tmux says there is no server or session to
/// list; otherwise why not, its context first.
pub fn listing(success: bool, stdout: &[u8], stderr: &[u8]) -> (res: Result<Vec<Terminal>, String>)
    ensures
        !success ==> if means_no_targets(trim(utf8_lossy(stderr@))) {
            res matches Ok(ts) && ts@.len() == 0
        } else {
            res matches Err(e) && e@ == "failed to list tmux targets: "@ + ("tmux failed: "@ + trim(
                utf8_lossy(stderr@),
            ))
        },
        success ==> exists|r: Result<Vec<Terminal>, TargetsError>|
            #[trigger] parsed(stdout@, r) && match (r, res) {
                (Ok(ts), Ok(us)) => us@ == ts@,
                (Err(e), Err(m)) => m@ == "invalid tmux target response: "@ + targets_error_text(e),
                _ => false,
            },
{
    if !success {
        if is_no_targets_error(stderr) {
            return Ok(Vec::new());
        }
        let mut text = chars_of("failed to list tmux targets: ");
        push_all(&mut text, &chars_of(command_error(stderr).as_str()));
        return Err(string_from_chars(&text));
    }
    let r = parse_targets(stdout);
    let ghost rv = r;
    match r {
        Ok(ts) => Ok(ts),
        Err(e) => {
            let mut text = chars_of("invalid tmux target response: ");
            push_all(&mut text, &chars_of(e.message().as_str()));
            let res: Result<Vec<Terminal>, String> = Err(string_from_chars(&text));
            assert(parsed(stdout@, rv));
            res
        },
    }
}

// ---------------------------------------------------------------------------
// Commands
// ---------------------------------------------------------------------------

fn owned(s: &str) -> (res: String)
    ensures
        res@ == s@,
{
    string_from_chars(&chars_of(s))
}

/// The arguments of the tmux command that lists every pane.
pub fn list_arguments() -> (res: Vec<String>)
    ensures
        string_views(res@) == seq!["list-panes"@, "-a"@, "-F"@, LIST_FORMAT@],
{
    let res = vec![owned("list-panes"), owned("-a"), owned("-F"), owned(LIST_FORMAT)];
    assert(string_views(res@) =~= seq!["list-panes"@, "-a"@, "-F"@, LIST_FORMAT@]);
    res
}

/// The arguments of the tmux command that types `text` into pane `id`
/// literally, without Enter.
pub fn send_text_arguments(id: &str, text: &str) -> (res: Vec<String>)
    ensures
        string_views(res@) == seq!["send-keys"@, "-t"@, id@, "-l"@, "--"@, text@],
{
    let res = vec![owned("send-keys"), owned("-t"), owned(id), owned("-l"), owned("--"), owned(text)];
    assert(string_views(res@) =~= seq!["send-keys"@, "-t"@, id@, "-l"@, "--"@, text@]);
    res
}

/// The arguments of the tmux command that presses Enter in pane `id`.
pub fn send_enter_arguments(id: &str) -> (res: Vec<String>)
    ensures
        string_views(res@) == seq!["send-keys"@, "-t"@, id@, "Enter"@],
{
    let res = vec![owned("send-keys"), owned("-t"), owned(id), owned("Enter")];
    assert(string_views(res@) =~= seq!["send-keys"@, "-t"@, id@, "Enter"@]);
    res
}

} // verus!
