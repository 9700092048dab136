//! What the user is told of a rebase and of a comment.

use vstd::prelude::*;

use crate::input::{Action, Task};
use crate::state::{App, AppView};
use crate::text::concat;

verus! {

/// How a rebase on the upstream branch ended.
pub enum RebaseOutcome {
    /// It succeeded.
    Rebased,
    /// It failed and was taken back.
    RolledBack,
    /// There is no upstream branch.
    NoUpstream,
    /// It was not even tried, for this reason.
    Failed(String),
}

/// The mathematical reading of a [`RebaseOutcome`].
pub enum RebaseEnd {
    Rebased,
    RolledBack,
    NoUpstream,
    Failed(Seq<char>),
}

impl View for RebaseOutcome {
    type V = RebaseEnd;

    open spec fn view(&self) -> RebaseEnd {
        match *self {
            RebaseOutcome::Rebased => RebaseEnd::Rebased,
            RebaseOutcome::RolledBack => RebaseEnd::RolledBack,
            RebaseOutcome::NoUpstream => RebaseEnd::NoUpstream,
            RebaseOutcome::Failed(reason) => RebaseEnd::Failed(reason@),
        }
    }
}

/// What follows a rebase: the program ends after one that succeeded. After one
/// that failed the proposal stays, with a note; otherwise it goes, and a
/// message says why.
pub open spec fn rebase_ended(a: AppView, end: RebaseEnd) -> (AppView, Task) {
    match end {
        RebaseEnd::Rebased => (AppView { show_rebase_modal: false, ..a }, Task::Quit(true)),
        RebaseEnd::RolledBack => (
            AppView {
                rebase_notification: Some("Rebase failed due to conflicts and was rolled back."@),
                ..a
            },
            Task::Continue,
        ),
        RebaseEnd::NoUpstream => (
            AppView {
                show_rebase_modal: false,
                status_message: Some("No upstream branch configured."@),
                ..a
            },
            Task::Continue,
        ),
        RebaseEnd::Failed(reason) => (
            AppView {
                show_rebase_modal: false,
                status_message: Some("Error: "@ + reason),
                ..a
            },
            Task::Continue,
        ),
    }
}

/// Takes in how a rebase ended.
pub fn finish_rebase(app: &mut App, outcome: &RebaseOutcome) -> (r: Action)
    ensures
        (final(app)@, r@) == rebase_ended(old(app)@, outcome@),
{
    match outcome {
        RebaseOutcome::Rebased => {
            app.show_rebase_modal = false;
            Action::Quit(true)
        },
        RebaseOutcome::RolledBack => {
            app.rebase_notification =
            Some("Rebase failed due to conflicts and was rolled back.".to_string());
            Action::Continue
        },
        RebaseOutcome::NoUpstream => {
            app.show_rebase_modal = false;
            app.status_message = Some("No upstream branch configured.".to_string());
            Action::Continue
        },
        RebaseOutcome::Failed(reason) => {
            app.show_rebase_modal = false;
            app.status_message = Some(concat("Error: ", reason));
            Action::Continue
        },
    }
}

/// The message after a comment: that it was sent to the agent of this name, or
/// why not.
pub open spec fn comment_ended(
    a: AppView,
    agent: Seq<char>,
    error: Option<Seq<char>>,
) -> AppView {
    AppView {
        status_message: Some(
            match error {
                None => "Comment sent to "@ + agent,
                Some(reason) => "Error: "@ + reason,
            },
        ),
        ..a
    }
}

/// Takes in what came of sending a comment to the agent of this name.
pub fn finish_comment(app: &mut App, agent: &str, error: &Option<String>)
    ensures
        final(app)@ == comment_ended(old(app)@, agent@, error.deep_view()),
{
    let message: String = match error {
        None => concat("Comment sent to ", agent),
        Some(reason) => concat("Error: ", reason),
    };
    app.status_message = Some(message);
}

} // verus!
