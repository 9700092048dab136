//! What comes in from the terminal and what goes out to the system.

use vstd::prelude::*;

use crate::parse::{numbered, LineChange};

verus! {

/// A key that was pressed.
#[derive(Clone, Copy, Debug, PartialEq, Eq, Structural)]
pub enum Key {
    Char(char),
    Esc,
    Enter,
    Backspace,
    Delete,
    Left,
    Right,
    Up,
    Down,
    Home,
    End,
    PageUp,
    PageDown,
    Tab,
    /// A key without a meaning here.
    Other,
}

/// What the mouse did, and where.
#[derive(Clone, Copy, Debug, PartialEq, Eq, Structural)]
pub struct Mouse {
    pub kind: MouseKind,
    pub row: u16,
    pub column: u16,
}

/// What the mouse did.
#[derive(Clone, Copy, Debug, PartialEq, Eq, Structural)]
pub enum MouseKind {
    ScrollDown,
    ScrollUp,
    /// Something without a meaning here.
    Other,
}

/// The size of the terminal.
#[derive(Clone, Copy, Debug, PartialEq, Eq, Structural)]
pub struct Size {
    pub width: u16,
    pub height: u16,
}

/// How the diff of the file that the user is at lies on the screen: how many
/// lines it takes side by side and unified, and which lines these are; for
/// the side by side view those on the new side.
pub struct Layout {
    pub height: u16,
    pub aligned_count: usize,
    pub unified_count: usize,
    pub aligned_head: Vec<LineChange>,
    pub unified_lines: Vec<LineChange>,
}

/// The mathematical reading of a [`Layout`].
pub struct LayoutView {
    pub height: u16,
    pub aligned_count: usize,
    pub unified_count: usize,
    pub aligned_head: Seq<(usize, Seq<char>)>,
    pub unified_lines: Seq<(usize, Seq<char>)>,
}

impl View for Layout {
    type V = LayoutView;

    open spec fn view(&self) -> LayoutView {
        LayoutView {
            height: self.height,
            aligned_count: self.aligned_count,
            unified_count: self.unified_count,
            aligned_head: numbered(self.aligned_head@),
            unified_lines: numbered(self.unified_lines@),
        }
    }
}

/// How many lines of a diff are on a screen of a height: what its frame
/// leaves.
pub open spec fn page_of(height: u16) -> usize {
    if height >= 6 {
        (height - 6) as usize
    } else {
        0
    }
}

/// How many lines of a diff are on a screen of a height.
pub fn page_height(height: u16) -> (r: usize)
    ensures
        r == page_of(height),
{
    height.saturating_sub(6) as usize
}

/// What is to be done outside before the next key.
pub enum Action {
    /// Nothing.
    Continue,
    /// End the program; after a rebase, if so it says.
    Quit(bool),
    /// Find out which changes there are to decide about.
    PrepareRebase,
    /// Rebase on the upstream branch.
    RunRebase,
    /// Send this comment.
    SendComment(String),
    /// Write the accepted changes to the files.
    CommitChanges,
}

/// The mathematical reading of an [`Action`].
pub enum Task {
    Continue,
    Quit(bool),
    PrepareRebase,
    RunRebase,
    SendComment(Seq<char>),
    CommitChanges,
}

impl View for Action {
    type V = Task;

    open spec fn view(&self) -> Task {
        match *self {
            Action::Continue => Task::Continue,
            Action::Quit(rebased) => Task::Quit(rebased),
            Action::PrepareRebase => Task::PrepareRebase,
            Action::RunRebase => Task::RunRebase,
            Action::SendComment(message) => Task::SendComment(message@),
            Action::CommitChanges => Task::CommitChanges,
        }
    }
}

} // verus!
