//! Terminal panes that can receive text, and the applications that host
//! them.
use vstd::prelude::*;

pub mod tmux;

verus! {

/// A terminal session that can be addressed by an automation
/// implementation: a leaf pane and its location within the containing
/// window and tab.
#[derive(Clone, Debug, PartialEq, Eq)]
pub struct Terminal {
    /// Identifier used to address the terminal.
    pub id: String,
    /// Name reported by the terminal application.
    pub name: String,
    /// Working directory reported by the terminal application.
    pub working_directory: String,
    /// One-based index of the containing window.
    pub window_index: usize,
    /// One-based index of the containing tab within its window.
    pub tab_index: usize,
    /// One-based index of the terminal within its tab.
    pub terminal_index: usize,
}

/// Terminal automation provided by Ghostty.
pub struct GhosttyAutomation;

/// Terminal automation provided by iTerm2.
pub struct ITerm2Automation;

/// Terminal automation provided by tmux.
pub struct TmuxAutomation;

} // verus!
