//! What a candidate command's run comes to: its standard output, or the
//! text of the reason it gave none.
use vstd::prelude::*;
use vstd::utf8::{decode_utf8, valid_utf8};

use crate::automation::tmux::{lossy_string, utf8_error, utf8_error_text, utf8_lossy, utf8_str};
use crate::text::{chars_of, push_all, string_from_chars, trim, trimmed};

verus! {

/// How a candidate command's run ended, as its runner saw it.
pub enum CommandRun {
    /// The program could not be started; the text of the error.
    NotStarted(String),
    /// The program ran: whether it succeeded, its exit status as text, and
    /// what it wrote.
    Exited { success: bool, status: String, stdout: Vec<u8>, stderr: Vec<u8> },
}

/// `: ` and the trimmed standard error, or nothing where it is blank.
pub open spec fn stderr_suffix(stderr: Seq<u8>) -> Seq<char> {
    let text = trim(utf8_lossy(stderr));
    if text.len() == 0 {
        Seq::empty()
    } else {
        ": "@ + text
    }
}

/// What the run of `program` comes to: its standard output where it
/// succeeded with UTF-8 output; otherwise the text of the failure.
pub open spec fn run_outcome(program: Seq<char>, run: CommandRun) -> Result<Seq<char>, Seq<char>> {
    match run {
        CommandRun::NotStarted(e) => Err("failed to execute "@ + program + ": "@ + e@),
        CommandRun::Exited { success, status, stdout, stderr } => if !success {
            Err(program + " exited with "@ + status@ + stderr_suffix(stderr@))
        } else if valid_utf8(stdout@) {
            Ok(decode_utf8(stdout@))
        } else {
            Err(program + " produced non-UTF-8 output: "@ + utf8_error_text(stdout@))
        },
    }
}

/// What the run of `program` gave: the output of a successful run, or why
/// there is none.
pub fn command_output(program: &str, run: CommandRun) -> (res: Result<String, String>)
    ensures
        match (res, run_outcome(program@, run)) {
            (Ok(out), Ok(expected)) => out@ == expected,
            (Err(e), Err(expected)) => e@ == expected,
            _ => false,
        },
{
    match run {
        CommandRun::NotStarted(e) => {
            let mut text = chars_of("failed to execute ");
            push_all(&mut text, &chars_of(program));
            push_all(&mut text, &chars_of(": "));
            push_all(&mut text, &chars_of(e.as_str()));
            Err(string_from_chars(&text))
        },
        CommandRun::Exited { success, status, stdout, stderr } => {
            if !success {
                let mut text = chars_of(program);
                push_all(&mut text, &chars_of(" exited with "));
                push_all(&mut text, &chars_of(status.as_str()));
                let err = lossy_string(stderr.as_slice());
                let trimmed_err = trimmed(&chars_of(err.as_str()));
                if trimmed_err.len() > 0 {
                    push_all(&mut text, &chars_of(": "));
                    push_all(&mut text, &trimmed_err);
                }
                Err(string_from_chars(&text))
            } else {
                match utf8_str(stdout.as_slice()) {
                    Some(out) => Ok(string_from_chars(&chars_of(out))),
                    None => {
                        let mut text = chars_of(program);
                        push_all(&mut text, &chars_of(" produced non-UTF-8 output: "));
                        let why = utf8_error(stdout.as_slice());
                        push_all(&mut text, &chars_of(why.as_str()));
                        Err(string_from_chars(&text))
                    },
                }
            }
        },
    }
}

} // verus!
