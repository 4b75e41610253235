//! Input modes and pane focus of the launcher session.

use vstd::prelude::*;

verus! {

/// The launcher's input mode.
#[derive(Debug, Clone, Copy, PartialEq, Eq, Structural)]
pub enum AppMode {
    Normal,
    Search,
    Command,
    Quit,
}

/// The status-line label of a mode.
pub open spec fn mode_label(m: AppMode) -> Seq<char> {
    match m {
        AppMode::Normal => "NORMAL"@,
        AppMode::Search => "SEARCH"@,
        AppMode::Command => "COMMAND"@,
        AppMode::Quit => "QUIT"@,
    }
}

impl AppMode {
    /// The mode's display label.
    pub fn label(&self) -> (r: &'static str)
        ensures
            r@ == mode_label(*self),
    {
        match self {
            AppMode::Normal => "NORMAL",
            AppMode::Search => "SEARCH",
            AppMode::Command => "COMMAND",
            AppMode::Quit => "QUIT",
        }
    }
}

/// Which pane of the session holds the focus.
#[derive(Debug, Clone, Copy, PartialEq, Eq, Structural)]
pub enum FocusedPane {
    History,
    FileList,
    Preview,
}

/// The pane after `p` in the focus cycle.
pub open spec fn next_pane(p: FocusedPane) -> FocusedPane {
    match p {
        FocusedPane::History => FocusedPane::FileList,
        FocusedPane::FileList => FocusedPane::Preview,
        FocusedPane::Preview => FocusedPane::History,
    }
}

impl FocusedPane {
    /// The pane that takes the focus next: history, file list, preview,
    /// and around again.
    pub fn next(&self) -> (r: FocusedPane)
        ensures
            r == next_pane(*self),
    {
        match self {
            FocusedPane::History => FocusedPane::FileList,
            FocusedPane::FileList => FocusedPane::Preview,
            FocusedPane::Preview => FocusedPane::History,
        }
    }
}

/// What the preview pane shows.
#[derive(Debug)]
pub enum PreviewState {
    Empty,
    Text(String),
    Summary(String),
}

impl Clone for PreviewState {
    fn clone(&self) -> (res: Self)
        ensures
            res == *self,
    {
        match self {
            PreviewState::Empty => PreviewState::Empty,
            PreviewState::Text(s) => PreviewState::Text(s.clone()),
            PreviewState::Summary(s) => PreviewState::Summary(s.clone()),
        }
    }
}

} // verus!
