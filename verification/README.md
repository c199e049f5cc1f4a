# convey

Convey composes a prompt from a YAML workflow in a terminal form and types
the rendered Markdown into a chosen tmux pane.

Ghostty and iTerm2 are offered on macOS only, where they are driven by
AppleScript. This build carries no AppleScript sources, so choosing either
of them reports an error; tmux works on every platform.

The behaviour of the form is a Verus-verified library; a thin program drives
it from the terminal.

## Layout

- `src/` — the verified library.
  - `cli.rs` — the `--terminal` option.
  - `workflow.rs`, `input.rs`, `template.rs` — workflow definitions, their
    checks, candidate commands and Handlebars rendering. Templates that may
    call a partial are refused, since a partial can include itself without
    end.
  - `field.rs`, `select.rs` — one input of the form and the prefix-filtered
    select it uses.
  - `search.rs`, `tree.rs`, `tree_select.rs`, `target.rs`, `sort.rs`,
    `display.rs` — the searchable tree of terminal panes and the destination
    chooser.
  - `workflow_selector.rs` — choosing a workflow file from a directory.
  - `screen.rs`, `regions.rs`, `editing.rs`, `editor.rs` — the input
    screen: focus, saving, navigation, submission, what each region shows,
    which edit a key makes and what it does to promkit's text editor.
  - `automation.rs`, `automation/tmux.rs`, `task.rs`, `delivery.rs` — reading
    pane listings, the outcome of candidate commands, and the order of
    delivery.
  - `laws.rs` — properties that span several operations.
- `tests/` — tests of the library.
- `app/` — the program: command line, files, processes, terminal drawing and
  the event loop.
