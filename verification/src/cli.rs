//! Command-line choices: which terminal applications to query.
use vstd::prelude::*;

use crate::text::{chars_eq, chars_of, lower, lowercase, split_chars, split_on, string_from_chars, push_all, views};

verus! {

/// A terminal application that can host destination panes.
#[derive(Clone, Copy, Debug, PartialEq, Eq, Structural, PartialOrd, Ord, Hash)]
pub enum TerminalApplication {
    Ghostty,
    Iterm2,
    Tmux,
}

/// The name by which an application is chosen on the command line.
pub open spec fn app_name(app: TerminalApplication) -> Seq<char> {
    match app {
        TerminalApplication::Ghostty => "ghostty"@,
        TerminalApplication::Iterm2 => "iterm2"@,
        TerminalApplication::Tmux => "tmux"@,
    }
}

/// The position of an application in the order in which they are declared,
/// which is the order in which sets of them are kept.
pub open spec fn app_rank(app: TerminalApplication) -> nat {
    match app {
        TerminalApplication::Ghostty => 0,
        TerminalApplication::Iterm2 => 1,
        TerminalApplication::Tmux => 2,
    }
}

impl TerminalApplication {
    /// The command-line name of the application.
    pub fn name(self) -> (res: &'static str)
        ensures
            res@ == app_name(self),
    {
        match self {
            TerminalApplication::Ghostty => "ghostty",
            TerminalApplication::Iterm2 => "iterm2",
            TerminalApplication::Tmux => "tmux",
        }
    }
}

/// `apps` lists applications in declaration order, each at most once: the
/// way a set of them is kept.
pub open spec fn is_app_set(apps: Seq<TerminalApplication>) -> bool {
    forall|i: int, j: int| 0 <= i < j < apps.len() ==> app_rank(apps[i]) < app_rank(apps[j])
}

/// Every terminal application, in declaration order.
pub fn all_terminal_applications() -> (res: Vec<TerminalApplication>)
    ensures
        is_app_set(res@),
        forall|a: TerminalApplication| res@.contains(a),
{
    let res = vec![
        TerminalApplication::Ghostty,
        TerminalApplication::Iterm2,
        TerminalApplication::Tmux,
    ];
    assert forall|a: TerminalApplication| res@.contains(a) by {
        match a {
            TerminalApplication::Ghostty => assert(res@[0] == a),
            TerminalApplication::Iterm2 => assert(res@[1] == a),
            TerminalApplication::Tmux => assert(res@[2] == a),
        }
    }
    res
}

/// The application whose command-line name is exactly `s`.
pub open spec fn app_named(s: Seq<char>) -> Option<TerminalApplication> {
    if s == "ghostty"@ {
        Some(TerminalApplication::Ghostty)
    } else if s == "iterm2"@ {
        Some(TerminalApplication::Iterm2)
    } else if s == "tmux"@ {
        Some(TerminalApplication::Tmux)
    } else {
        None
    }
}

/// Looks up an application by its exact command-line name.
pub fn application_named(s: &[char]) -> (res: Option<TerminalApplication>)
    ensures
        res == app_named(s@),
{
    if chars_eq(s, &chars_of("ghostty")) {
        Some(TerminalApplication::Ghostty)
    } else if chars_eq(s, &chars_of("iterm2")) {
        Some(TerminalApplication::Iterm2)
    } else if chars_eq(s, &chars_of("tmux")) {
        Some(TerminalApplication::Tmux)
    } else {
        None
    }
}

/// What the `--terminal` option accepts: `all` in any ASCII case, or
/// application names separated by commas.  The result is the set of named
/// applications; the first piece that names none is reported as
/// `invalid variant: <piece>`.
pub open spec fn terminal_option_accepts(value: Seq<char>, res: Result<Vec<TerminalApplication>, String>) -> bool {
    if lower(value) == "all"@ {
        res matches Ok(apps) && is_app_set(apps@) && forall|a: TerminalApplication|
            apps@.contains(a)
    } else {
        let parts = split_on(value, ',');
        match res {
            Ok(apps) => {
                &&& forall|i: int| 0 <= i < parts.len() ==> (#[trigger] app_named(parts[i])) is Some
                &&& is_app_set(apps@)
                &&& forall|a: TerminalApplication|
                    apps@.contains(a) <==> exists|i: int|
                        0 <= i < parts.len() && #[trigger] app_named(parts[i]) == Some(a)
            },
            Err(message) => exists|k: int|
                0 <= k < parts.len() && (forall|i: int| 0 <= i < k ==> (#[trigger] app_named(parts[i])) is Some)
                    && app_named(parts[k]) is None && message@ == "invalid variant: "@ + parts[k],
        }
    }
}

/// Parses the value of the `--terminal` option.
pub fn parse_terminal_applications(value: &str) -> (res: Result<Vec<TerminalApplication>, String>)
    ensures
        terminal_option_accepts(value@, res),
{
    let chars = chars_of(value);
    let lowered = lowercase(&chars);
    if chars_eq(&lowered, &chars_of("all")) {
        return Ok(all_terminal_applications());
    }
    let parts = split_chars(&chars, ',');
    let ghost pv = split_on(value@, ',');
    let mut wanted_ghostty = false;
    let mut wanted_iterm2 = false;
    let mut wanted_tmux = false;
    let mut i: usize = 0;
    while i < parts.len()
        invariant
            lower(value@) != "all"@,
            pv == split_on(value@, ','),
            views(parts@) == pv,
            i <= parts@.len(),
            forall|j: int| 0 <= j < i ==> (#[trigger] app_named(pv[j])) is Some,
            wanted_ghostty == exists|j: int|
                0 <= j < i && #[trigger] app_named(pv[j]) == Some(TerminalApplication::Ghostty),
            wanted_iterm2 == exists|j: int|
                0 <= j < i && #[trigger] app_named(pv[j]) == Some(TerminalApplication::Iterm2),
            wanted_tmux == exists|j: int|
                0 <= j < i && #[trigger] app_named(pv[j]) == Some(TerminalApplication::Tmux),
        decreases parts@.len() - i,
    {
        assert(parts@[i as int]@ == pv[i as int]);
        match application_named(&parts[i]) {
            Some(TerminalApplication::Ghostty) => wanted_ghostty = true,
            Some(TerminalApplication::Iterm2) => wanted_iterm2 = true,
            Some(TerminalApplication::Tmux) => wanted_tmux = true,
            None => {
                let mut message = chars_of("invalid variant: ");
                push_all(&mut message, &parts[i]);
                let message = string_from_chars(&message);
                assert(app_named(pv[i as int]) is None);
                assert(message@ == "invalid variant: "@ + pv[i as int]);
                return Err(message);
            },
        }
        i += 1;
    }
    let mut apps: Vec<TerminalApplication> = Vec::new();
    if wanted_ghostty {
        apps.push(TerminalApplication::Ghostty);
    }
    if wanted_iterm2 {
        apps.push(TerminalApplication::Iterm2);
    }
    if wanted_tmux {
        apps.push(TerminalApplication::Tmux);
    }
    assert forall|a: TerminalApplication|
        apps@.contains(a) <==> exists|j: int|
            0 <= j < pv.len() && #[trigger] app_named(pv[j]) == Some(a) by {
        match a {
            TerminalApplication::Ghostty => {
                if wanted_ghostty {
                    assert(apps@[0] == a);
                }
            },
            TerminalApplication::Iterm2 => {
                if wanted_iterm2 {
                    if wanted_ghostty {
                        assert(apps@[1] == a);
                    } else {
                        assert(apps@[0] == a);
                    }
                }
            },
            TerminalApplication::Tmux => {
                if wanted_tmux {
                    assert(apps@[apps@.len() - 1] == a);
                }
            },
        }
    }
    Ok(apps)
}

/// Whether this program can reach the panes of `app`: Ghostty and iTerm2
/// are driven through macOS automation, tmux everywhere.
pub open spec fn offered_on(app: TerminalApplication, macos: bool) -> bool {
    macos || app == TerminalApplication::Tmux
}

/// The application named exactly `s`, where it is offered.
pub open spec fn app_offered(s: Seq<char>, macos: bool) -> Option<TerminalApplication> {
    match app_named(s) {
        Some(a) => if offered_on(a, macos) {
            Some(a)
        } else {
            None
        },
        None => None,
    }
}

/// What the `--terminal` option accepts where only the applications
/// offered on the platform exist: `all` names every offered application;
/// a piece that names none of them is reported as `invalid variant: <piece>`.
pub open spec fn terminal_option_accepts_on(
    value: Seq<char>,
    res: Result<Vec<TerminalApplication>, String>,
    macos: bool,
) -> bool {
    if lower(value) == "all"@ {
        res matches Ok(apps) && is_app_set(apps@) && forall|a: TerminalApplication|
            apps@.contains(a) <==> offered_on(a, macos)
    } else {
        let parts = split_on(value, ',');
        match res {
            Ok(apps) => {
                &&& forall|i: int| 0 <= i < parts.len() ==> (#[trigger] app_offered(parts[i], macos)) is Some
                &&& is_app_set(apps@)
                &&& forall|a: TerminalApplication|
                    apps@.contains(a) <==> exists|i: int|
                        0 <= i < parts.len() && #[trigger] app_offered(parts[i], macos) == Some(a)
            },
            Err(message) => exists|k: int|
                0 <= k < parts.len() && (forall|i: int|
                    0 <= i < k ==> (#[trigger] app_offered(parts[i], macos)) is Some) && app_offered(
                    parts[k],
                    macos,
                ) is None && message@ == "invalid variant: "@ + parts[k],
        }
    }
}

/// On macOS every application is offered, so the option reads as it does
/// with every application available.
proof fn lemma_every_application_offered_on_macos(
    value: Seq<char>,
    res: Result<Vec<TerminalApplication>, String>,
)
    requires
        terminal_option_accepts(value, res),
    ensures
        terminal_option_accepts_on(value, res, true),
{
    if lower(value) != "all"@ {
        let parts = split_on(value, ',');
        match res {
            Ok(apps) => {
                assert forall|i: int| 0 <= i < parts.len() implies (#[trigger] app_offered(parts[i], true)) is Some by {
                    assert(app_named(parts[i]) is Some);
                }
                assert forall|a: TerminalApplication|
                    apps@.contains(a) <==> exists|i: int|
                        0 <= i < parts.len() && #[trigger] app_offered(parts[i], true) == Some(a) by {
                    if apps@.contains(a) {
                        let i = choose|i: int| 0 <= i < parts.len() && #[trigger] app_named(parts[i]) == Some(a);
                        assert(app_offered(parts[i], true) == Some(a));
                    }
                    if exists|i: int| 0 <= i < parts.len() && #[trigger] app_offered(parts[i], true) == Some(a) {
                        let i = choose|i: int| 0 <= i < parts.len() && #[trigger] app_offered(parts[i], true) == Some(a);
                        assert(app_named(parts[i]) == Some(a));
                    }
                }
            },
            Err(message) => {
                let k = choose|k: int|
                    0 <= k < parts.len() && (forall|i: int| 0 <= i < k ==> (#[trigger] app_named(parts[i])) is Some)
                        && app_named(parts[k]) is None && message@ == "invalid variant: "@ + parts[k];
                assert forall|i: int| 0 <= i < k implies (#[trigger] app_offered(parts[i], true)) is Some by {
                    assert(app_named(parts[i]) is Some);
                }
                assert(app_offered(parts[k], true) is None);
            },
        }
    }
}

/// Parses the value of the `--terminal` option on a platform that is macOS
/// or not: elsewhere tmux is the only application there is.
pub fn parse_terminal_applications_on(value: &str, macos: bool) -> (res: Result<Vec<TerminalApplication>, String>)
    ensures
        terminal_option_accepts_on(value@, res, macos),
{
    if macos {
        let res = parse_terminal_applications(value);
        proof {
            lemma_every_application_offered_on_macos(value@, res);
        }
        return res;
    }
    let chars = chars_of(value);
    let lowered = lowercase(&chars);
    if chars_eq(&lowered, &chars_of("all")) {
        let apps = vec![TerminalApplication::Tmux];
        assert forall|a: TerminalApplication| apps@.contains(a) <==> offered_on(a, false) by {
            if a == TerminalApplication::Tmux {
                assert(apps@[0] == a);
            }
        }
        return Ok(apps);
    }
    let parts = split_chars(&chars, ',');
    let ghost pv = split_on(value@, ',');
    let mut i: usize = 0;
    while i < parts.len()
        invariant
            !macos,
            lower(value@) != "all"@,
            pv == split_on(value@, ','),
            views(parts@) == pv,
            i <= parts@.len(),
            forall|j: int| 0 <= j < i ==> (#[trigger] app_offered(pv[j], false)) == Some(TerminalApplication::Tmux),
        decreases parts@.len() - i,
    {
        assert(parts@[i as int]@ == pv[i as int]);
        match application_named(&parts[i]) {
            Some(TerminalApplication::Tmux) => {},
            _ => {
                let mut message = chars_of("invalid variant: ");
                push_all(&mut message, &parts[i]);
                let message = string_from_chars(&message);
                assert(app_offered(pv[i as int], false) is None);
                assert(message@ == "invalid variant: "@ + pv[i as int]);
                assert forall|j: int| 0 <= j < i implies (#[trigger] app_offered(pv[j], false)) is Some by {
                    assert(app_offered(pv[j], false) == Some(TerminalApplication::Tmux));
                }
                return Err(message);
            },
        }
        i += 1;
    }
    let mut apps: Vec<TerminalApplication> = Vec::new();
    if parts.len() > 0 {
        apps.push(TerminalApplication::Tmux);
    }
    assert forall|a: TerminalApplication|
        apps@.contains(a) <==> exists|j: int| 0 <= j < pv.len() && #[trigger] app_offered(pv[j], false) == Some(a) by {
        assert(pv.len() == parts@.len());
        if apps@.contains(a) {
            assert(apps@[0] == a);
            assert(app_offered(pv[0], false) == Some(a));
        }
        if exists|j: int| 0 <= j < pv.len() && #[trigger] app_offered(pv[j], false) == Some(a) {
            let j = choose|j: int| 0 <= j < pv.len() && #[trigger] app_offered(pv[j], false) == Some(a);
            assert(app_offered(pv[j], false) == Some(TerminalApplication::Tmux));
            assert(apps@[0] == TerminalApplication::Tmux);
        }
    }
    Ok(apps)
}

/// The command line: the terminal applications to query and the workflow
/// file or directory.
pub struct Cli {
    pub terminals: Vec<TerminalApplication>,
    pub workflow: String,
}

impl Cli {
    /// Builds the command line from the raw `--terminal` value, which
    /// defaults to `all` when absent, and the workflow path, with every
    /// application available (as on macOS).
    pub fn new(terminal: Option<&str>, workflow: String) -> (res: Result<Cli, String>)
        ensures
            match terminal {
                Some(value) => terminal_option_accepts(
                    value@,
                    match res {
                        Ok(cli) => Ok(cli.terminals),
                        Err(e) => Err(e),
                    },
                ),
                None => res matches Ok(cli) && is_app_set(cli.terminals@) && forall|
                    a: TerminalApplication,
                | cli.terminals@.contains(a),
            },
            res matches Ok(cli) ==> cli.workflow == workflow,
    {
        let terminals = match terminal {
            Some(value) => parse_terminal_applications(value),
            None => Ok(all_terminal_applications()),
        };
        match terminals {
            Ok(terminals) => Ok(Cli { terminals, workflow }),
            Err(e) => Err(e),
        }
    }
}

} // verus!
