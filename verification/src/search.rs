//! The destination search language: terms separated by whitespace, with
//! quotes and backslash escapes, each term either free text or
//! `field:value`.
use vstd::prelude::*;

use crate::text::{
    chars_eq, chars_of, contains, contains_sub, decimal, decimal_chars, is_white, is_whitespace,
    lower, lowercase, parse_usize, parse_usize_spec, push_all, string_from_chars,
};

verus! {

// ---------------------------------------------------------------------------
// Tokens
// ---------------------------------------------------------------------------

/// What a character of a query does.
pub enum CharRole {
    /// It is part of a token.
    Literal(char),
    /// It ends the token being read.
    Separator,
    /// It is a backslash that escapes the next character, or a quote that
    /// opens or closes quoting; it is part of no token.
    Markup,
}

/// Character `i` follows a backslash that escapes it.
pub open spec fn escaped_at(s: Seq<char>, i: int) -> bool
    decreases i,
{
    if i <= 0 {
        false
    } else {
        s[i - 1] == '\\' && !escaped_at(s, i - 1)
    }
}

/// The quotes among the first `i` characters that are not escaped.
pub open spec fn quote_count(s: Seq<char>, i: int) -> nat
    decreases i,
{
    if i <= 0 {
        0
    } else {
        quote_count(s, i - 1) + if s[i - 1] == '"' && !escaped_at(s, i - 1) {
            1nat
        } else {
            0nat
        }
    }
}

/// Character `i` stands inside quotes.
pub open spec fn quoted_at(s: Seq<char>, i: int) -> bool {
    quote_count(s, i) % 2 == 1
}

/// The role of character `i`: an escaped character is literal; otherwise a
/// backslash or a quote is markup, whitespace outside quotes separates, and
/// anything else is literal.
pub open spec fn char_role(s: Seq<char>, i: int) -> CharRole {
    let c = s[i];
    if escaped_at(s, i) {
        CharRole::Literal(c)
    } else if c == '\\' || c == '"' {
        CharRole::Markup
    } else if is_white(c) && !quoted_at(s, i) {
        CharRole::Separator
    } else {
        CharRole::Literal(c)
    }
}

/// The roles of the characters of `s`.
pub open spec fn roles(s: Seq<char>, n: int) -> Seq<CharRole> {
    Seq::new(n as nat, |i: int| char_role(s, i))
}

/// The literal characters between separators: one piece more than there
/// are separators.
pub open spec fn pieces(r: Seq<CharRole>) -> Seq<Seq<char>>
    decreases r.len(),
{
    if r.len() == 0 {
        seq![Seq::<char>::empty()]
    } else {
        let p = pieces(r.drop_last());
        match r.last() {
            CharRole::Separator => p.push(Seq::<char>::empty()),
            CharRole::Markup => p,
            CharRole::Literal(c) => p.update(p.len() - 1, p.last().push(c)),
        }
    }
}

/// The pieces that are not empty, in order.
pub open spec fn nonempty_pieces(p: Seq<Seq<char>>) -> Seq<Seq<char>>
    decreases p.len(),
{
    if p.len() == 0 {
        Seq::empty()
    } else if p.last().len() > 0 {
        nonempty_pieces(p.drop_last()).push(p.last())
    } else {
        nonempty_pieces(p.drop_last())
    }
}

/// The tokens of a query, or `None` where a quote is left open: the
/// non-empty runs of literal characters between separators. A trailing
/// backslash stands for itself.
pub open spec fn tokens_of(s: Seq<char>) -> Option<Seq<Seq<char>>> {
    if quoted_at(s, s.len() as int) {
        None
    } else {
        let p = pieces(roles(s, s.len() as int));
        let p = if escaped_at(s, s.len() as int) {
            p.update(p.len() - 1, p.last().push('\\'))
        } else {
            p
        };
        Some(nonempty_pieces(p))
    }
}

proof fn lemma_pieces_len(r: Seq<CharRole>)
    ensures
        pieces(r).len() >= 1,
    decreases r.len(),
{
    if r.len() > 0 {
        lemma_pieces_len(r.drop_last());
    }
}

pub open spec fn char_views(v: Seq<Vec<char>>) -> Seq<Seq<char>> {
    v.map_values(|x: Vec<char>| x@)
}

/// Splits a query into tokens.
pub fn tokenize(query: &[char]) -> (res: Option<Vec<Vec<char>>>)
    ensures
        match res {
            Some(tokens) => tokens_of(query@) == Some(char_views(tokens@)),
            None => tokens_of(query@) is None,
        },
{
    let mut tokens: Vec<Vec<char>> = Vec::new();
    let mut token: Vec<char> = Vec::new();
    let mut quoted = false;
    let mut escaped = false;
    let mut i: usize = 0;
    assert(query@.take(0) =~= Seq::<char>::empty());
    assert(char_views(tokens@) =~= Seq::<Seq<char>>::empty());
    assert(token@ =~= Seq::<char>::empty());
    while i < query.len()
        invariant
            i <= query@.len(),
            escaped == escaped_at(query@, i as int),
            quoted == quoted_at(query@, i as int),
            pieces(roles(query@, i as int)).len() >= 1,
            nonempty_pieces(pieces(roles(query@, i as int)).drop_last()) == char_views(tokens@),
            pieces(roles(query@, i as int)).last() == token@,
        decreases query@.len() - i,
    {
        let c = query[i];
        let ghost p = pieces(roles(query@, i as int));
        proof {
            assert(roles(query@, i + 1).drop_last() =~= roles(query@, i as int));
            lemma_pieces_len(roles(query@, i + 1));
        }
        assert(p.update(p.len() - 1, p.last().push(c)).drop_last() =~= p.drop_last());
        if escaped {
            token.push(c);
            escaped = false;
        } else if c == '\\' {
            escaped = true;
        } else if c == '"' {
            quoted = !quoted;
        } else if is_whitespace(c) && !quoted {
            assert(p.push(Seq::<char>::empty()).drop_last() =~= p);
            assert(p.drop_last().push(p.last()) =~= p);
            if token.len() > 0 {
                let mut done: Vec<char> = Vec::new();
                std::mem::swap(&mut done, &mut token);
                let ghost before = tokens@;
                tokens.push(done);
                assert(char_views(tokens@) =~= char_views(before).push(done@));
                assert(token@ =~= Seq::<char>::empty());
            }
        } else {
            token.push(c);
        }
        i += 1;
    }
    let ghost p = pieces(roles(query@, query@.len() as int));
    assert(p.update(p.len() - 1, p.last().push('\\')).drop_last() =~= p.drop_last());
    if escaped {
        token.push('\\');
    }
    if quoted {
        return None;
    }
    if token.len() > 0 {
        let ghost before = tokens@;
        let ghost tv = token@;
        tokens.push(token);
        assert(char_views(tokens@) =~= char_views(before).push(tv));
    }
    Some(tokens)
}

// ---------------------------------------------------------------------------
// Clauses
// ---------------------------------------------------------------------------

/// A text property of a terminal that a clause may name.
#[derive(Clone, Copy, Debug, PartialEq, Eq, Structural)]
pub enum TextField {
    Application,
    Name,
    WorkingDirectory,
    Id,
}

/// A numeric property of a terminal that a clause may name.
#[derive(Clone, Copy, Debug, PartialEq, Eq, Structural)]
pub enum NumberField {
    Window,
    Tab,
    Pane,
}

/// One term of a query.
pub enum QueryClause {
    /// Text that the named property, or any text property, contains.
    Text { field: Option<TextField>, value: Vec<char> },
    /// A value that the named index equals.
    Number { field: NumberField, value: usize },
}

/// The position of the first colon of `token` at or after `i`.
pub open spec fn colon_from(token: Seq<char>, i: int) -> Option<int>
    decreases token.len() - i,
{
    if i < 0 || i >= token.len() {
        None
    } else if token[i] == ':' {
        Some(i)
    } else {
        colon_from(token, i + 1)
    }
}

/// The position of the first colon of `token`, which separates a field
/// name from its value.
pub open spec fn colon_index(token: Seq<char>) -> Option<int> {
    colon_from(token, 0)
}

pub open spec fn is_field_char(c: char) -> bool {
    ('a' <= c && c <= 'z') || ('A' <= c && c <= 'Z') || ('0' <= c && c <= '9') || c == '_'
}

pub open spec fn is_field_name(s: Seq<char>) -> bool {
    forall|i: int| 0 <= i < s.len() ==> is_field_char(#[trigger] s[i])
}

/// The text field that a lower-case field name selects.
pub open spec fn text_field_named(f: Seq<char>) -> Option<TextField> {
    if f == "app"@ {
        Some(TextField::Application)
    } else if f == "name"@ {
        Some(TextField::Name)
    } else if f == "cwd"@ || f == "path"@ {
        Some(TextField::WorkingDirectory)
    } else if f == "id"@ {
        Some(TextField::Id)
    } else {
        None
    }
}

/// The numeric field that a lower-case field name selects.
pub open spec fn number_field_named(f: Seq<char>) -> Option<NumberField> {
    if f == "window"@ || f == "w"@ {
        Some(NumberField::Window)
    } else if f == "tab"@ || f == "t"@ {
        Some(NumberField::Tab)
    } else if f == "pane"@ || f == "p"@ {
        Some(NumberField::Pane)
    } else {
        None
    }
}

pub open spec fn number_label(f: NumberField) -> Seq<char> {
    match f {
        NumberField::Window => "Window"@,
        NumberField::Tab => "Tab"@,
        NumberField::Pane => "Pane"@,
    }
}

/// `res` is what the token `token` means: free text where it has no colon
/// or its field part is not a plain name; otherwise the named field with
/// the value after the first colon, an index being a positive integer.
pub open spec fn clause_of(token: Seq<char>, res: Result<QueryClause, String>) -> bool {
    match colon_index(token) {
        None => res matches Ok(QueryClause::Text { field, value }) && field is None && value@ == token,
        Some(k) => {
            let field = token.subrange(0, k);
            let value = token.subrange(k + 1, token.len() as int);
            if !is_field_name(field) {
                res matches Ok(QueryClause::Text { field: f, value: v }) && f is None && v@ == token
            } else if value.len() == 0 {
                res matches Err(e) && e@ == "Search field \""@ + field + "\" needs a value"@
            } else if text_field_named(lower(field)) is Some {
                res matches Ok(QueryClause::Text { field: f, value: v }) && f == text_field_named(
                    lower(field),
                ) && v@ == value
            } else if number_field_named(lower(field)) is Some {
                let nf = number_field_named(lower(field)).unwrap();
                match parse_usize_spec(value) {
                    Some(n) if n > 0 => res matches Ok(QueryClause::Number { field: f, value: v })
                        && f == nf && v == n,
                    _ => res matches Err(e) && e@ == number_label(nf)
                        + " index must be a positive integer"@,
                }
            } else {
                res matches Err(e) && e@ == "Unknown search field \""@ + field
                    + "\"; use app, name, cwd, w, t, p, or id"@
            }
        },
    }
}

fn find_colon(token: &[char]) -> (res: Option<usize>)
    ensures
        match res {
            Some(k) => colon_index(token@) == Some(k as int) && k < token@.len(),
            None => colon_index(token@) is None,
        },
{
    let mut i: usize = 0;
    while i < token.len()
        invariant
            i <= token@.len(),
            colon_from(token@, 0) == colon_from(token@, i as int),
        decreases token@.len() - i,
    {
        if token[i] == ':' {
            return Some(i);
        }
        i += 1;
    }
    None
}

fn copy_range(s: &[char], from: usize, to: usize) -> (res: Vec<char>)
    requires
        from <= to <= s@.len(),
    ensures
        res@ == s@.subrange(from as int, to as int),
{
    let mut res: Vec<char> = Vec::new();
    let mut i = from;
    while i < to
        invariant
            from <= i <= to <= s@.len(),
            res@ == s@.subrange(from as int, i as int),
        decreases to - i,
    {
        res.push(s[i]);
        i += 1;
        assert(res@ =~= s@.subrange(from as int, i as int));
    }
    res
}

fn copy_all(s: &[char]) -> (res: Vec<char>)
    ensures
        res@ == s@,
{
    let r = copy_range(s, 0, s.len());
    assert(s@.subrange(0, s@.len() as int) =~= s@);
    r
}

fn field_name_check(s: &[char]) -> (res: bool)
    ensures
        res == is_field_name(s@),
{
    let mut i: usize = 0;
    while i < s.len()
        invariant
            i <= s@.len(),
            forall|j: int| 0 <= j < i ==> is_field_char(#[trigger] s@[j]),
        decreases s@.len() - i,
    {
        let c = s[i];
        if !(('a' <= c && c <= 'z') || ('A' <= c && c <= 'Z') || ('0' <= c && c <= '9') || c
            == '_') {
            return false;
        }
        i += 1;
    }
    true
}

fn text_with(parts: &[&[char]]) -> (res: Vec<char>)
    ensures
        res@ == concat_chars(parts@),
{
    let mut res: Vec<char> = Vec::new();
    let mut i: usize = 0;
    while i < parts.len()
        invariant
            i <= parts@.len(),
            res@ == concat_chars(parts@.take(i as int)),
        decreases parts@.len() - i,
    {
        push_all(&mut res, parts[i]);
        i += 1;
        assert(parts@.take(i as int).drop_last() =~= parts@.take(i - 1));
    }
    assert(parts@.take(i as int) =~= parts@);
    res
}

pub open spec fn concat_chars(parts: Seq<&[char]>) -> Seq<char>
    decreases parts.len(),
{
    if parts.len() == 0 {
        Seq::empty()
    } else {
        concat_chars(parts.drop_last()) + parts.last()@
    }
}

/// Reads one token as a clause.
#[verifier::rlimit(40)]
pub fn parse_clause(token: &[char]) -> (res: Result<QueryClause, String>)
    ensures
        clause_of(token@, res),
{
    let k = match find_colon(token) {
        None => return Ok(QueryClause::Text { field: None, value: copy_all(token) }),
        Some(k) => k,
    };
    let n = token.len();
    assert(k < n);
    let field = copy_range(token, 0, k);
    let value = copy_range(token, k + 1, n);
    if !field_name_check(&field) {
        return Ok(QueryClause::Text { field: None, value: copy_all(token) });
    }
    if value.len() == 0 {
        let text = text_with(&[chars_of("Search field \"").as_slice(), field.as_slice(), chars_of("\" needs a value").as_slice()]);
        proof {
            reveal_with_fuel(concat_chars, 4);
        }
        return Err(string_from_chars(&text));
    }
    let lowered = lowercase(&field);
    if chars_eq(&lowered, &chars_of("app")) {
        return Ok(QueryClause::Text { field: Some(TextField::Application), value });
    }
    if chars_eq(&lowered, &chars_of("name")) {
        return Ok(QueryClause::Text { field: Some(TextField::Name), value });
    }
    if chars_eq(&lowered, &chars_of("cwd")) || chars_eq(&lowered, &chars_of("path")) {
        return Ok(QueryClause::Text { field: Some(TextField::WorkingDirectory), value });
    }
    if chars_eq(&lowered, &chars_of("id")) {
        return Ok(QueryClause::Text { field: Some(TextField::Id), value });
    }
    let number_field = if chars_eq(&lowered, &chars_of("window")) || chars_eq(&lowered, &chars_of("w")) {
        NumberField::Window
    } else if chars_eq(&lowered, &chars_of("tab")) || chars_eq(&lowered, &chars_of("t")) {
        NumberField::Tab
    } else if chars_eq(&lowered, &chars_of("pane")) || chars_eq(&lowered, &chars_of("p")) {
        NumberField::Pane
    } else {
        let text = text_with(
            &[
                chars_of("Unknown search field \"").as_slice(),
                field.as_slice(),
                chars_of("\"; use app, name, cwd, w, t, p, or id").as_slice(),
            ],
        );
        proof {
            reveal_with_fuel(concat_chars, 4);
        }
        return Err(string_from_chars(&text));
    };
    match parse_usize(&value) {
        Some(n) if n > 0 => Ok(QueryClause::Number { field: number_field, value: n }),
        _ => {
            let label = match number_field {
                NumberField::Window => chars_of("Window"),
                NumberField::Tab => chars_of("Tab"),
                NumberField::Pane => chars_of("Pane"),
            };
            let text = text_with(&[label.as_slice(), chars_of(" index must be a positive integer").as_slice()]);
            proof {
                reveal_with_fuel(concat_chars, 3);
            }
            Err(string_from_chars(&text))
        },
    }
}

/// The token is a valid clause: it has no colon, or its field part is not
/// a plain name, or it names a text field with a value, or an index with a
/// positive integer value.
pub open spec fn clause_valid(token: Seq<char>) -> bool {
    match colon_index(token) {
        None => true,
        Some(k) => {
            let field = token.subrange(0, k);
            let value = token.subrange(k + 1, token.len() as int);
            if !is_field_name(field) {
                true
            } else if value.len() == 0 {
                false
            } else if text_field_named(lower(field)) is Some {
                true
            } else if number_field_named(lower(field)) is Some {
                match parse_usize_spec(value) {
                    Some(n) => n > 0,
                    None => false,
                }
            } else {
                false
            }
        },
    }
}

/// The position of the first invalid token at or after `i`, or the number
/// of tokens.
pub open spec fn first_invalid(tokens: Seq<Seq<char>>, i: int) -> int
    decreases tokens.len() - i,
{
    if i < 0 || i >= tokens.len() {
        tokens.len() as int
    } else if !clause_valid(tokens[i]) {
        i
    } else {
        first_invalid(tokens, i + 1)
    }
}

proof fn lemma_clause_of_valid(token: Seq<char>, res: Result<QueryClause, String>)
    requires
        clause_of(token, res),
    ensures
        res is Ok == clause_valid(token),
{
}

/// The clauses of a query, or the message of the first error: an open
/// quote, or the first token that is not a valid clause.
pub open spec fn query_parses(query: Seq<char>, res: Result<Vec<QueryClause>, String>) -> bool {
    match tokens_of(query) {
        None => res matches Err(e) && e@ == "Unclosed quote in search query"@,
        Some(tokens) => match res {
            Ok(clauses) => clauses.len() == tokens.len() && forall|i: int|
                0 <= i < tokens.len() ==> #[trigger] clause_of(
                    tokens[i],
                    Ok::<QueryClause, String>(clauses@[i]),
                ),
            Err(e) => first_invalid(tokens, 0) < tokens.len() && clause_of(
                tokens[first_invalid(tokens, 0)],
                Err::<QueryClause, String>(e),
            ),
        },
    }
}

/// Reads a query into clauses.
pub fn parse_query(query: &[char]) -> (res: Result<Vec<QueryClause>, String>)
    ensures
        query_parses(query@, res),
{
    let tokens = match tokenize(query) {
        None => return Err(string_from_chars(&chars_of("Unclosed quote in search query"))),
        Some(tokens) => tokens,
    };
    let ghost tv = char_views(tokens@);
    let mut clauses: Vec<QueryClause> = Vec::new();
    let mut i: usize = 0;
    while i < tokens.len()
        invariant
            tokens_of(query@) == Some(tv),
            tv == char_views(tokens@),
            i <= tokens@.len(),
            clauses@.len() == i,
            forall|j: int|
                0 <= j < i ==> clause_of(#[trigger] tv[j], Ok::<QueryClause, String>(clauses@[j])),
            first_invalid(tv, 0) == first_invalid(tv, i as int),
        decreases tokens@.len() - i,
    {
        assert(tv[i as int] == tokens@[i as int]@);
        let parsed = parse_clause(&tokens[i]);
        proof {
            lemma_clause_of_valid(tv[i as int], parsed);
        }
        match parsed {
            Ok(clause) => {
                clauses.push(clause);
            },
            Err(e) => {
                return Err(e);
            },
        }
        i += 1;
    }
    Ok(clauses)
}

// ---------------------------------------------------------------------------
// Matching
// ---------------------------------------------------------------------------

/// One searchable terminal.
pub struct TreeSelectItem {
    pub key: String,
    pub application: String,
    pub window_index: usize,
    pub tab_index: usize,
    pub pane_index: usize,
    pub name: String,
    pub working_directory: String,
    pub id: String,
}

/// `W<window>/T<tab>/P<pane>`.
pub open spec fn location_text(w: nat, t: nat, p: nat) -> Seq<char> {
    seq!['W'] + decimal(w) + seq!['/', 'T'] + decimal(t) + seq!['/', 'P'] + decimal(p)
}

/// `Pane <pane> · <name> · <working directory>`.
pub open spec fn pane_label_text(p: nat, name: Seq<char>, cwd: Seq<char>) -> Seq<char> {
    "Pane "@ + decimal(p) + seq![' ', '·', ' '] + name + seq![' ', '·', ' '] + cwd
}

/// `query` occurs in `candidate`, ASCII case ignored.
pub open spec fn contains_ignoring_case(candidate: Seq<char>, query: Seq<char>) -> bool {
    contains_sub(lower(candidate), lower(query))
}

/// The item satisfies the clause: a text clause names a property that
/// contains its value, or, without a field, any of application, name,
/// working directory and location does; a number clause names an index
/// equal to its value.
pub open spec fn clause_holds(item: TreeSelectItem, clause: QueryClause) -> bool {
    match clause {
        QueryClause::Text { field, value } => match field {
            None => contains_ignoring_case(item.application@, value@) || contains_ignoring_case(
                item.name@,
                value@,
            ) || contains_ignoring_case(item.working_directory@, value@) || contains_ignoring_case(
                location_text(
                    item.window_index as nat,
                    item.tab_index as nat,
                    item.pane_index as nat,
                ),
                value@,
            ),
            Some(TextField::Application) => contains_ignoring_case(item.application@, value@),
            Some(TextField::Name) => contains_ignoring_case(item.name@, value@),
            Some(TextField::WorkingDirectory) => contains_ignoring_case(
                item.working_directory@,
                value@,
            ),
            Some(TextField::Id) => contains_ignoring_case(item.id@, value@),
        },
        QueryClause::Number { field, value } => match field {
            NumberField::Window => item.window_index == value,
            NumberField::Tab => item.tab_index == value,
            NumberField::Pane => item.pane_index == value,
        },
    }
}

/// The item satisfies every clause.
pub open spec fn item_matches(item: TreeSelectItem, clauses: Seq<QueryClause>) -> bool {
    forall|i: int| 0 <= i < clauses.len() ==> clause_holds(item, #[trigger] clauses[i])
}

/// Whether `query` occurs in `candidate`, ASCII case ignored.
pub fn contains_ignoring_ascii_case(candidate: &[char], query: &[char]) -> (res: bool)
    ensures
        res == contains_ignoring_case(candidate@, query@),
{
    contains(&lowercase(candidate), &lowercase(query))
}

impl TreeSelectItem {
    /// The item's location, `W<window>/T<tab>/P<pane>`.
    pub fn location(&self) -> (res: Vec<char>)
        ensures
            res@ == location_text(
                self.window_index as nat,
                self.tab_index as nat,
                self.pane_index as nat,
            ),
    {
        let mut text: Vec<char> = Vec::new();
        text.push('W');
        push_all(&mut text, &decimal_chars(self.window_index));
        text.push('/');
        text.push('T');
        push_all(&mut text, &decimal_chars(self.tab_index));
        text.push('/');
        text.push('P');
        push_all(&mut text, &decimal_chars(self.pane_index));
        assert(text@ =~= location_text(
            self.window_index as nat,
            self.tab_index as nat,
            self.pane_index as nat,
        ));
        text
    }

    /// The label of the item's row, `Pane <pane> · <name> · <cwd>`.
    pub fn pane_label(&self) -> (res: Vec<char>)
        ensures
            res@ == pane_label_text(self.pane_index as nat, self.name@, self.working_directory@),
    {
        let mut text = chars_of("Pane ");
        push_all(&mut text, &decimal_chars(self.pane_index));
        text.push(' ');
        text.push('·');
        text.push(' ');
        push_all(&mut text, &chars_of(self.name.as_str()));
        text.push(' ');
        text.push('·');
        text.push(' ');
        push_all(&mut text, &chars_of(self.working_directory.as_str()));
        assert(text@ =~= pane_label_text(
            self.pane_index as nat,
            self.name@,
            self.working_directory@,
        ));
        text
    }

    fn satisfies(&self, clause: &QueryClause) -> (res: bool)
        ensures
            res == clause_holds(*self, *clause),
    {
        match clause {
            QueryClause::Text { field, value } => match field {
                None => contains_ignoring_ascii_case(&chars_of(self.application.as_str()), value)
                    || contains_ignoring_ascii_case(&chars_of(self.name.as_str()), value)
                    || contains_ignoring_ascii_case(
                    &chars_of(self.working_directory.as_str()),
                    value,
                ) || contains_ignoring_ascii_case(&self.location(), value),
                Some(TextField::Application) => contains_ignoring_ascii_case(
                    &chars_of(self.application.as_str()),
                    value,
                ),
                Some(TextField::Name) => contains_ignoring_ascii_case(
                    &chars_of(self.name.as_str()),
                    value,
                ),
                Some(TextField::WorkingDirectory) => contains_ignoring_ascii_case(
                    &chars_of(self.working_directory.as_str()),
                    value,
                ),
                Some(TextField::Id) => contains_ignoring_ascii_case(
                    &chars_of(self.id.as_str()),
                    value,
                ),
            },
            QueryClause::Number { field, value } => match field {
                NumberField::Window => self.window_index == *value,
                NumberField::Tab => self.tab_index == *value,
                NumberField::Pane => self.pane_index == *value,
            },
        }
    }

    /// Whether the item satisfies every clause.
    pub fn matches(&self, clauses: &[QueryClause]) -> (res: bool)
        ensures
            res == item_matches(*self, clauses@),
    {
        let mut i: usize = 0;
        while i < clauses.len()
            invariant
                i <= clauses@.len(),
                forall|j: int| 0 <= j < i ==> clause_holds(*self, #[trigger] clauses@[j]),
            decreases clauses@.len() - i,
        {
            if !self.satisfies(&clauses[i]) {
                return false;
            }
            i += 1;
        }
        true
    }
}

impl QueryClause {
    /// The text that the clause highlights: its value.
    pub fn display_value(&self) -> (res: Vec<char>)
        ensures
            match self {
                QueryClause::Text { value, .. } => res@ == value@,
                QueryClause::Number { value, .. } => res@ == decimal(*value as nat),
            },
    {
        match self {
            QueryClause::Text { value, .. } => copy_all(value),
            QueryClause::Number { value, .. } => decimal_chars(*value),
        }
    }
}

} // verus!
