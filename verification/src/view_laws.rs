//! What values are said to be is what they are.

use vstd::prelude::*;

use crate::bourne::{Answer, BourneError, Reply, Session, Trouble};
use crate::edits::ChangeOp;
use crate::error::{DiffError, Failure};
use crate::git::{CheckState, Command, GitCommand, GitOutput, RebaseCheck};
use crate::input::{Action, Layout, Task};
use crate::names::{distinct_names, map_of};
use crate::outcome::{RebaseEnd, RebaseOutcome};
use crate::parse::{DiffLine, LineKind};
use crate::sources::{loaded_of, DiffSource, Source};
use crate::state::{CommentInput, Theme};

verus! {

/// What is to be done is what is asked for.
pub proof fn actions_are_what_they_say(action: Action)
    ensures
        match action {
            Action::Continue => action@ == Task::Continue,
            Action::Quit(rebased) => action@ == Task::Quit(rebased),
            Action::PrepareRebase => action@ == Task::PrepareRebase,
            Action::RunRebase => action@ == Task::RunRebase,
            Action::SendComment(message) => action@ == Task::SendComment(message@),
            Action::CommitChanges => action@ == Task::CommitChanges,
        },
{
}

/// The lines and the sizes of a layout are those that it holds.
pub proof fn layouts_are_what_they_hold(l: Layout)
    ensures
        l@.height == l.height,
        l@.aligned_count == l.aligned_count,
        l@.unified_count == l.unified_count,
        l@.aligned_head.len() == l.aligned_head@.len(),
        forall|i: int|
            0 <= i < l.aligned_head@.len() ==> #[trigger] l@.aligned_head[i] == (
                l.aligned_head@[i].0,
                l.aligned_head@[i].1@,
            ),
        l@.unified_lines.len() == l.unified_lines@.len(),
        forall|i: int|
            0 <= i < l.unified_lines@.len() ==> #[trigger] l@.unified_lines[i] == (
                l.unified_lines@[i].0,
                l.unified_lines@[i].1@,
            ),
{
}

/// Commands of git are what they say.
pub proof fn commands_are_what_they_say(c: GitCommand)
    ensures
        match c {
            GitCommand::Diff(args) => c@ is Diff && c@->Diff_0.len() == args@.len() && forall|
                i: int,
            |
                0 <= i < args@.len() ==> #[trigger] c@->Diff_0[i] == args@[i]@,
            GitCommand::Upstream => c@ == Command::Upstream,
            GitCommand::RepoRoot => c@ == Command::RepoRoot,
            GitCommand::Porcelain => c@ == Command::Porcelain,
            GitCommand::Untracked => c@ == Command::Untracked,
            GitCommand::InsideWorkTree => c@ == Command::InsideWorkTree,
            GitCommand::Branch => c@ == Command::Branch,
            GitCommand::UpstreamOf(branch) => c@ == Command::UpstreamOf(branch@),
            GitCommand::BranchStatus => c@ == Command::BranchStatus,
            GitCommand::Rebase(upstream) => c@ == Command::Rebase(upstream@),
            GitCommand::AbortRebase => c@ == Command::AbortRebase,
        },
{
}

/// What git gave back is all there.
pub proof fn outputs_are_what_they_hold(o: GitOutput)
    ensures
        o@.success == o.success,
        o@.stdout == o.stdout@,
        o@.stderr == o.stderr@,
{
}

/// How far the question about a rebase has come is what it says.
pub proof fn checks_are_what_they_say(c: RebaseCheck)
    ensures
        match c {
            RebaseCheck::WorkTree => c@ == CheckState::WorkTree,
            RebaseCheck::Branch => c@ == CheckState::Branch,
            RebaseCheck::Upstream { branch } => c@ == (CheckState::Upstream { branch: branch@ }),
            RebaseCheck::Status { branch, upstream } => c@ == (CheckState::Status {
                branch: branch@,
                upstream: upstream@,
            }),
            RebaseCheck::Done(None) => c@ == CheckState::Done(None),
            RebaseCheck::Done(Some(advice)) => c@ == CheckState::Done(Some(advice@)),
        },
{
}

/// Failures are what they say.
pub proof fn failures_are_what_they_say(e: DiffError, t: BourneError)
    ensures
        match e {
            DiffError::GitDiff(s) => e@ == Failure::GitDiff(s@),
            DiffError::NotInRepository => e@ == Failure::NotInRepository,
            DiffError::DirtyTree => e@ == Failure::DirtyTree,
        },
        match t {
            BourneError::NotRunning => t@ == Trouble::NotRunning,
            BourneError::NoList(s) => t@ == Trouble::NoList(s@),
            BourneError::UnexpectedResponse => t@ == Trouble::UnexpectedResponse,
            BourneError::NoSession => t@ == Trouble::NoSession,
            BourneError::NotSent(s) => t@ == Trouble::NotSent(s@),
            BourneError::PtyNotRunning => t@ == Trouble::PtyNotRunning,
        },
{
}

/// Answers and sessions are what they say.
pub proof fn replies_are_what_they_say(r: Reply, s: Session)
    ensures
        match r {
            Reply::Unreachable => r@ == Answer::Unreachable,
            Reply::Refused(text) => r@ == Answer::Refused(text@),
            Reply::Unreadable(text) => r@ == Answer::Unreadable(text@),
            Reply::Body(text) => r@ == Answer::Body(text@),
        },
        s@.directory is Some <==> s.directory is Some,
        s.directory is Some ==> s@.directory->0 == s.directory->0@,
        s@.id is Some <==> s.id is Some,
        s.id is Some ==> s@.id->0 == s.id->0@,
{
}

/// How a rebase ended is what it says.
pub proof fn outcomes_are_what_they_say(o: RebaseOutcome)
    ensures
        match o {
            RebaseOutcome::Rebased => o@ == RebaseEnd::Rebased,
            RebaseOutcome::RolledBack => o@ == RebaseEnd::RolledBack,
            RebaseOutcome::NoUpstream => o@ == RebaseEnd::NoUpstream,
            RebaseOutcome::Failed(reason) => o@ == RebaseEnd::Failed(reason@),
        },
{
}

/// Sources are what they say.
pub proof fn sources_are_what_they_say(s: DiffSource)
    ensures
        match s {
            DiffSource::Uncommitted => s@ == Source::Uncommitted,
            DiffSource::ToRef(reference) => s@ == Source::ToRef(reference@),
            DiffSource::Between(from, to) => s@ == Source::Between(from@, to@),
            DiffSource::WithArgs(args) => s@ == Source::WithArgs(args@),
        },
{
}

/// The lines of a diff are what they say.
pub proof fn lines_are_what_they_say(d: DiffLine)
    ensures
        match d {
            DiffLine::Marker => d@ == LineKind::Marker,
            DiffLine::File(s) => d@ == LineKind::File(s@),
            DiffLine::Hunk(a, b) => d@ == LineKind::Hunk(a, b),
            DiffLine::Metadata => d@ == LineKind::Metadata,
            DiffLine::Removed(s) => d@ == LineKind::Removed(s@),
            DiffLine::Added(s) => d@ == LineKind::Added(s@),
            DiffLine::Context(s) => d@ == LineKind::Context(s@),
        },
{
}

/// Operations and edits speak of the same line, and themes and comments are
/// what they hold.
pub proof fn parts_are_what_they_hold(op: ChangeOp, theme: Theme, c: CommentInput)
    ensures
        match op {
            ChangeOp::Replace(n, _) => op@.line() == n,
            ChangeOp::Delete(n) => op@.line() == n,
            ChangeOp::Insert { base_pos, .. } => op@.line() == base_pos,
        },
        theme@ == theme.name@,
        c@.file == c.file@,
        c@.line_num == c.line_num,
        c@.line_content == c.line_content@,
        c@.text == c.text@,
        c@.cursor_pos == c.cursor_pos,
{
}

/// What is loaded keeps its two sides apart.
pub proof fn loaded_keeps_its_sides(d: (crate::parse::FileChanges, String, String))
    ensures
        loaded_of(d).left == d.1@,
        loaded_of(d).right == d.2@,
        loaded_of(d).files == crate::parse::all_sides(d.0@),
{
}

/// A list of entries with different names stands for the map of exactly these
/// entries.
pub proof fn entries_stand_for_their_map<V>(items: Seq<(String, V)>, name: Seq<char>)
    requires
        distinct_names(items),
    ensures
        map_of(items).contains_key(name) <==> exists|i: int|
            0 <= i < items.len() && (#[trigger] items[i]).0@ == name,
        forall|i: int|
            0 <= i < items.len() ==> map_of(items)[(#[trigger] items[i]).0@] == items[i].1,
        forall|i: int, j: int|
            0 <= i < j < items.len() ==> (#[trigger] items[i]).0@ != (#[trigger] items[j]).0@,
{
    crate::names::lemma_map_of(items);
}

} // verus!
