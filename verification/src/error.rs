//! What can go wrong between the program and git.

use vstd::prelude::*;

use crate::text::concat;

verus! {

/// A failure of a diff or a rebase.
#[derive(Debug)]
pub enum DiffError {
    /// `git diff` failed, with this on its error output.
    GitDiff(String),
    /// There is no repository here.
    NotInRepository,
    /// A rebase was asked for with uncommitted changes.
    DirtyTree,
}

/// The mathematical reading of a [`DiffError`].
pub enum Failure {
    GitDiff(Seq<char>),
    NotInRepository,
    DirtyTree,
}

impl View for DiffError {
    type V = Failure;

    open spec fn view(&self) -> Failure {
        match *self {
            DiffError::GitDiff(s) => Failure::GitDiff(s@),
            DiffError::NotInRepository => Failure::NotInRepository,
            DiffError::DirtyTree => Failure::DirtyTree,
        }
    }
}

/// What the user is told of a failure.
pub open spec fn failure_text(f: Failure) -> Seq<char> {
    match f {
        Failure::GitDiff(s) => "Failed to execute git diff command: "@ + s,
        Failure::NotInRepository => "Not in a git repository"@,
        Failure::DirtyTree =>
            "Cannot rebase: you have uncommitted changes. Please commit or stash them first."@,
    }
}

impl DiffError {
    /// What the user is told of this failure.
    pub fn message(&self) -> (r: String)
        ensures
            r@ == failure_text(self@),
    {
        match self {
            DiffError::GitDiff(s) => concat("Failed to execute git diff command: ", s),
            DiffError::NotInRepository => "Not in a git repository".to_string(),
            DiffError::DirtyTree =>
                "Cannot rebase: you have uncommitted changes. Please commit or stash them first."
                .to_string(),
        }
    }
}

} // verus!
