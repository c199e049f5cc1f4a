//! The inputs that a workflow asks for, and how select candidates are
//! produced.
use vstd::prelude::*;

use crate::template::{calls_partial, handlebars_render, render, template_calls_partial, Values};
use crate::text::{chars_of, is_blank_text, lines, lines_of, push_all, string_from_chars, trim, trimmed, views};

verus! {

/// One input of a workflow.
pub struct InputDefinition {
    pub name: String,
    pub allow_empty: bool,
    pub kind: InputKind,
}

/// How an input is filled.
pub enum InputKind {
    Select(SelectDefinition),
    Textarea,
}

/// A select input: the inputs whose saved values it waits for, and where
/// its candidates come from.
pub struct SelectDefinition {
    pub depends_on: Vec<String>,
    pub candidates: SelectCandidates,
}

/// Where a select input's candidates come from.
pub enum SelectCandidates {
    /// A fixed list.
    Values(Vec<String>),
    /// The output of a local command.
    Command(CommandCandidates),
}

/// A local command whose output lines are the candidates; the program and
/// each argument are templates over the saved values.
pub struct CommandCandidates {
    pub program: String,
    pub args: Vec<String>,
}

/// Why a candidate command could not be rendered.
#[derive(Debug, PartialEq, Eq)]
pub enum CommandRenderError {
    /// The program template failed; the text is the template error.
    Program(String),
    /// An argument template failed; the text is the template error.
    Argument(String),
}

impl CommandRenderError {
    /// The error as text, with its context.
    pub fn message(&self) -> (res: String)
        ensures
            res@ == render_error_text(*self),
    {
        let (context, error) = match self {
            CommandRenderError::Program(e) => (chars_of("invalid candidate command program: "), e),
            CommandRenderError::Argument(e) => (chars_of("invalid command argument: "), e),
        };
        let mut text = context;
        push_all(&mut text, &chars_of(error.as_str()));
        string_from_chars(&text)
    }
}

pub open spec fn string_views(s: Seq<String>) -> Seq<Seq<char>> {
    s.map_values(|x: String| x@)
}

/// Every argument before `k` renders.
pub open spec fn args_render_before(args: Seq<String>, values: Map<Seq<char>, Seq<char>>, k: int) -> bool {
    forall|j: int| 0 <= j < k ==> (#[trigger] handlebars_render(args[j]@, values)) is Ok
}

/// What rendering `command` with `values` gives: the program and each
/// argument rendered, or the first template that fails.
pub open spec fn command_renders(
    command: CommandCandidates,
    values: Map<Seq<char>, Seq<char>>,
    res: Result<(String, Vec<String>), CommandRenderError>,
) -> bool {
    match res {
        Ok((program, args)) => {
            &&& handlebars_render(command.program@, values) == Ok::<Seq<char>, Seq<char>>(
                program@,
            )
            &&& args.len() == command.args.len()
            &&& forall|i: int|
                0 <= i < args.len() ==> handlebars_render(
                    #[trigger] command.args@[i]@,
                    values,
                ) == Ok::<Seq<char>, Seq<char>>(args@[i]@)
        },
        Err(CommandRenderError::Program(e)) => handlebars_render(command.program@, values)
            == Err::<Seq<char>, Seq<char>>(e@),
        Err(CommandRenderError::Argument(e)) => {
            &&& handlebars_render(command.program@, values) is Ok
            &&& exists|k: int|
                0 <= k < command.args.len() && args_render_before(command.args@, values, k)
                    && handlebars_render(command.args@[k]@, values) == Err::<
                    Seq<char>,
                    Seq<char>,
                >(e@)
        },
    }
}

/// The text of a render error, with its context.
pub open spec fn render_error_text(e: CommandRenderError) -> Seq<char> {
    match e {
        CommandRenderError::Program(t) => "invalid candidate command program: "@ + t@,
        CommandRenderError::Argument(t) => "invalid command argument: "@ + t@,
    }
}

/// The program or some argument may call a partial.
pub open spec fn command_calls_partial(command: CommandCandidates) -> bool {
    calls_partial(command.program@) || exists|i: int|
        0 <= i < command.args.len() && calls_partial(#[trigger] command.args@[i]@)
}

/// The input's candidates come from a command that may call a partial.
pub open spec fn definition_calls_partial(d: InputDefinition) -> bool {
    match d.kind {
        InputKind::Select(sd) => match sd.candidates {
            SelectCandidates::Command(cc) => command_calls_partial(cc),
            SelectCandidates::Values(_) => false,
        },
        InputKind::Textarea => false,
    }
}

impl CommandCandidates {
    /// Whether the program or some argument may call a partial.
    pub fn calls_partial(&self) -> (res: bool)
        ensures
            res == command_calls_partial(*self),
    {
        if template_calls_partial(self.program.as_str()) {
            return true;
        }
        let mut i: usize = 0;
        while i < self.args.len()
            invariant
                i <= self.args@.len(),
                forall|j: int| 0 <= j < i ==> !calls_partial(#[trigger] self.args@[j]@),
            decreases self.args@.len() - i,
        {
            if template_calls_partial(self.args[i].as_str()) {
                return true;
            }
            i += 1;
        }
        false
    }

    /// Renders the program and then each argument with the saved values;
    /// the first template that fails is reported.
    pub fn render(&self, values: &Values) -> (res: Result<(String, Vec<String>), CommandRenderError>)
        requires
            !command_calls_partial(*self),
        ensures
            command_renders(*self, values@, res),
    {
        let program = match render(self.program.as_str(), values) {
            Ok(program) => program,
            Err(e) => return Err(CommandRenderError::Program(e)),
        };
        let mut args: Vec<String> = Vec::new();
        let mut i: usize = 0;
        while i < self.args.len()
            invariant
                !command_calls_partial(*self),
                handlebars_render(self.program@, values@) == Ok::<Seq<char>, Seq<char>>(program@),
                i <= self.args@.len(),
                args@.len() == i,
                forall|j: int|
                    0 <= j < i ==> handlebars_render(#[trigger] self.args@[j]@, values@) == Ok::<
                        Seq<char>,
                        Seq<char>,
                    >(args@[j]@),
            decreases self.args@.len() - i,
        {
            assert(!calls_partial(self.args@[i as int]@));
            match render(self.args[i].as_str(), values) {
                Ok(arg) => args.push(arg),
                Err(e) => {
                    assert(args_render_before(self.args@, values@, i as int));
                    return Err(CommandRenderError::Argument(e));
                },
            }
            i += 1;
        }
        Ok((program, args))
    }
}

/// The candidates in a command's output: each line trimmed, blank lines
/// left out.
pub open spec fn candidate_lines(lines: Seq<Seq<char>>) -> Seq<Seq<char>>
    decreases lines.len(),
{
    if lines.len() == 0 {
        Seq::empty()
    } else {
        let rest = candidate_lines(lines.drop_last());
        if trim(lines.last()).len() == 0 {
            rest
        } else {
            rest.push(trim(lines.last()))
        }
    }
}

/// Reads candidates from a command's output: each non-empty trimmed line.
pub fn decode_candidates(output: &str) -> (res: Vec<String>)
    ensures
        string_views(res@) == candidate_lines(lines_of(output@)),
{
    let ls = lines(&chars_of(output));
    let ghost lv = lines_of(output@);
    let mut res: Vec<String> = Vec::new();
    let mut i: usize = 0;
    assert(lv.take(0) =~= Seq::<Seq<char>>::empty());
    while i < ls.len()
        invariant
            views(ls@) == lv,
            i <= ls@.len(),
            string_views(res@) == candidate_lines(lv.take(i as int)),
        decreases ls@.len() - i,
    {
        let line = trimmed(&ls[i]);
        assert(lv.take(i + 1).drop_last() =~= lv.take(i as int));
        assert(ls@[i as int]@ == lv[i as int]);
        if line.len() > 0 {
            let ghost before = res@;
            res.push(string_from_chars(&line));
            assert(string_views(res@) =~= string_views(before).push(line@));
        }
        i += 1;
    }
    assert(lv.take(ls@.len() as int) =~= lv);
    res
}

} // verus!
