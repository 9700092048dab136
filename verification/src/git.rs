//! What is asked of git, and what its answers mean.

use vstd::prelude::*;

use crate::contents::lemma_first_line;
use crate::error::{DiffError, Failure};
use crate::quoting::{unquote, unquoted};
use crate::text::{
    concat, contains, first_index, from_chars, lemma_first_index, lemma_texts_push, lines_of, occurs,
    split_lines, starts_with, texts, to_chars, trim, trimmed,
};

verus! {

/// What a run of git gave back.
pub struct GitOutput {
    pub success: bool,
    pub stdout: String,
    pub stderr: String,
}

/// The mathematical reading of a [`GitOutput`].
pub struct Output {
    pub success: bool,
    pub stdout: Seq<char>,
    pub stderr: Seq<char>,
}

impl View for GitOutput {
    type V = Output;

    open spec fn view(&self) -> Output {
        Output { success: self.success, stdout: self.stdout@, stderr: self.stderr@ }
    }
}

/// A command of git.
pub enum GitCommand {
    /// The differences that these arguments select.
    Diff(Vec<String>),
    /// The upstream of the current branch.
    Upstream,
    /// The root directory of the repository.
    RepoRoot,
    /// The changed and the untracked files.
    Porcelain,
    /// The same, with every file of an untracked directory.
    Untracked,
    /// Whether this is a work tree.
    InsideWorkTree,
    /// The name of the current branch.
    Branch,
    /// The upstream of this branch.
    UpstreamOf(String),
    /// How the current branch stands to its upstream.
    BranchStatus,
    /// Rebase onto this.
    Rebase(String),
    /// Undo a rebase that failed.
    AbortRebase,
}

/// The mathematical reading of a [`GitCommand`].
pub enum Command {
    Diff(Seq<Seq<char>>),
    Upstream,
    RepoRoot,
    Porcelain,
    Untracked,
    InsideWorkTree,
    Branch,
    UpstreamOf(Seq<char>),
    BranchStatus,
    Rebase(Seq<char>),
    AbortRebase,
}

impl View for GitCommand {
    type V = Command;

    open spec fn view(&self) -> Command {
        match *self {
            GitCommand::Diff(args) => Command::Diff(texts(args@)),
            GitCommand::Upstream => Command::Upstream,
            GitCommand::RepoRoot => Command::RepoRoot,
            GitCommand::Porcelain => Command::Porcelain,
            GitCommand::Untracked => Command::Untracked,
            GitCommand::InsideWorkTree => Command::InsideWorkTree,
            GitCommand::Branch => Command::Branch,
            GitCommand::UpstreamOf(b) => Command::UpstreamOf(b@),
            GitCommand::BranchStatus => Command::BranchStatus,
            GitCommand::Rebase(u) => Command::Rebase(u@),
            GitCommand::AbortRebase => Command::AbortRebase,
        }
    }
}

/// The arguments of a command.
pub open spec fn arguments(c: Command) -> Seq<Seq<char>> {
    match c {
        Command::Diff(args) => seq!["diff"@, "--no-color"@] + args,
        Command::Upstream => seq!["rev-parse"@, "--abbrev-ref"@, "HEAD@{u}"@],
        Command::RepoRoot => seq!["rev-parse"@, "--show-toplevel"@],
        Command::Porcelain => seq!["status"@, "--porcelain"@],
        Command::Untracked => seq!["status"@, "--porcelain"@, "--untracked-files=all"@],
        Command::InsideWorkTree => seq!["rev-parse"@, "--is-inside-work-tree"@],
        Command::Branch => seq!["symbolic-ref"@, "--short"@, "HEAD"@],
        Command::UpstreamOf(b) => seq!["rev-parse"@, "--abbrev-ref"@, b + "@{u}"@],
        Command::BranchStatus => seq!["status"@, "-sb"@],
        Command::Rebase(u) => seq!["rebase"@, u],
        Command::AbortRebase => seq!["rebase"@, "--abort"@],
    }
}

fn two(a: &str, b: &str) -> (r: Vec<String>)
    ensures
        texts(r@) == seq![a@, b@],
{
    let mut r: Vec<String> = Vec::new();
    r.push(a.to_string());
    r.push(b.to_string());
    assert(texts(r@) =~= seq![a@, b@]);
    r
}

fn three(a: &str, b: &str, c: &str) -> (r: Vec<String>)
    ensures
        texts(r@) == seq![a@, b@, c@],
{
    let mut r: Vec<String> = two(a, b);
    let last: String = c.to_string();
    proof {
        lemma_texts_push(r@, last);
    }
    r.push(last);
    assert(texts(r@) =~= seq![a@, b@, c@]);
    r
}

impl GitCommand {
    /// The arguments with which git is run.
    pub fn args(&self) -> (r: Vec<String>)
        ensures
            texts(r@) == arguments(self@),
    {
        match self {
            GitCommand::Diff(args) => {
                let mut r: Vec<String> = two("diff", "--no-color");
                let mut i: usize = 0;
                let ghost start = texts(r@);
                assert(start + texts(args@).take(0) =~= start);
                while i < args.len()
                    invariant
                        i <= args@.len(),
                        texts(r@) == start + texts(args@).take(i as int),
                    decreases args@.len() - i,
                {
                    let arg: String = args[i].clone();
                    proof {
                        lemma_texts_push(r@, arg);
                        assert((start + texts(args@).take(i as int)).push(arg@) =~= start + texts(
                            args@,
                        ).take(i + 1));
                    }
                    r.push(arg);
                    i = i + 1;
                }
                assert(texts(args@).take(i as int) =~= texts(args@));
                r
            },
            GitCommand::Upstream => three("rev-parse", "--abbrev-ref", "HEAD@{u}"),
            GitCommand::RepoRoot => two("rev-parse", "--show-toplevel"),
            GitCommand::Porcelain => two("status", "--porcelain"),
            GitCommand::Untracked => three("status", "--porcelain", "--untracked-files=all"),
            GitCommand::InsideWorkTree => two("rev-parse", "--is-inside-work-tree"),
            GitCommand::Branch => three("symbolic-ref", "--short", "HEAD"),
            GitCommand::UpstreamOf(b) => three("rev-parse", "--abbrev-ref", &concat(b, "@{u}")),
            GitCommand::BranchStatus => two("status", "-sb"),
            GitCommand::Rebase(u) => two("rebase", u),
            GitCommand::AbortRebase => two("rebase", "--abort"),
        }
    }
}

// ---- single answers ----

/// The upstream of the current branch, from the answer to
/// [`GitCommand::Upstream`]: none, if git could not name it.
pub fn get_upstream_branch(output: &GitOutput) -> (r: Option<String>)
    ensures
        r.deep_view() == (if output@.success {
            Some(trimmed(output@.stdout))
        } else {
            None
        }),
{
    if output.success {
        Some(trim(&output.stdout))
    } else {
        None
    }
}

/// The output of `git diff`, from the answer to [`GitCommand::Diff`].
pub fn get_diff_output_with_args(output: &GitOutput) -> (r: Result<String, DiffError>)
    ensures
        match r {
            Ok(text) => output@.success && text@ == output@.stdout,
            Err(e) => !output@.success && e@ == Failure::GitDiff(output@.stderr),
        },
{
    if output.success {
        Ok(output.stdout.clone())
    } else {
        Err(DiffError::GitDiff(output.stderr.clone()))
    }
}

/// The root of the repository, from the answer to [`GitCommand::RepoRoot`].
pub fn git_repo_root(output: &GitOutput) -> (r: Result<String, DiffError>)
    ensures
        match r {
            Ok(root) => output@.success && root@ == trimmed(output@.stdout),
            Err(e) => !output@.success && e@ == Failure::NotInRepository,
        },
{
    if output.success {
        Ok(trim(&output.stdout))
    } else {
        Err(DiffError::NotInRepository)
    }
}

/// Whether anything is uncommitted, from the answer to
/// [`GitCommand::Porcelain`].
pub fn has_uncommitted_changes(output: &GitOutput) -> (r: bool)
    ensures
        r == (trimmed(output@.stdout).len() > 0),
{
    !trim(&output.stdout).as_str().is_empty()
}

/// The paths on the lines of a status that mark untracked files, without the
/// quotes that git puts around some of them.
pub open spec fn untracked_paths(lines: Seq<Seq<char>>) -> Seq<Seq<char>>
    decreases lines.len(),
{
    if lines.len() == 0 {
        Seq::empty()
    } else {
        let rest = untracked_paths(lines.drop_last());
        if "?? "@.is_prefix_of(lines.last()) {
            rest.push(unquoted(trimmed(lines.last().skip(3))))
        } else {
            rest
        }
    }
}

/// The paths of the untracked files, from the answer to
/// [`GitCommand::Untracked`].
pub fn get_untracked_files(output: &GitOutput) -> (r: Vec<String>)
    ensures
        texts(r@) == untracked_paths(lines_of(output@.stdout)),
{
    let lines: Vec<String> = split_lines(&output.stdout);
    let ghost all = texts(lines@);
    let mut r: Vec<String> = Vec::new();
    let mut i: usize = 0;
    assert(all.take(0) =~= Seq::<Seq<char>>::empty());
    assert(texts(r@) =~= Seq::<Seq<char>>::empty());
    while i < lines.len()
        invariant
            i <= lines@.len(),
            all == texts(lines@),
            texts(r@) == untracked_paths(all.take(i as int)),
        decreases lines@.len() - i,
    {
        let chars: Vec<char> = to_chars(&lines[i]);
        proof {
            assert(all.take(i + 1).drop_last() =~= all.take(i as int));
            assert(all.take(i + 1).last() == chars@);
        }
        if starts_with(&chars, "?? ") {
            proof {
                reveal_strlit("?? ");
            }
            let path: String = unquote(&trim(&from_chars(&chars, 3, chars.len())));
            proof {
                assert(chars@.subrange(3, chars@.len() as int) =~= chars@.skip(3));
                lemma_texts_push(r@, path);
            }
            r.push(path);
        }
        i = i + 1;
    }
    assert(all.take(i as int) =~= all);
    r
}

// ---- does the branch need a rebase? ----

/// How far the question whether a rebase is needed has come.
pub enum RebaseCheck {
    WorkTree,
    Branch,
    Upstream { branch: String },
    Status { branch: String, upstream: String },
    Done(Option<String>),
}

/// The mathematical reading of a [`RebaseCheck`].
pub enum CheckState {
    WorkTree,
    Branch,
    Upstream { branch: Seq<char> },
    Status { branch: Seq<char>, upstream: Seq<char> },
    Done(Option<Seq<char>>),
}

impl View for RebaseCheck {
    type V = CheckState;

    open spec fn view(&self) -> CheckState {
        match *self {
            RebaseCheck::WorkTree => CheckState::WorkTree,
            RebaseCheck::Branch => CheckState::Branch,
            RebaseCheck::Upstream { branch } => CheckState::Upstream { branch: branch@ },
            RebaseCheck::Status { branch, upstream } => CheckState::Status {
                branch: branch@,
                upstream: upstream@,
            },
            RebaseCheck::Done(advice) => CheckState::Done(advice.deep_view()),
        }
    }
}

/// The question that is next.
pub open spec fn check_query(s: CheckState) -> Option<Command> {
    match s {
        CheckState::WorkTree => Some(Command::InsideWorkTree),
        CheckState::Branch => Some(Command::Branch),
        CheckState::Upstream { branch } => Some(Command::UpstreamOf(branch)),
        CheckState::Status { .. } => Some(Command::BranchStatus),
        CheckState::Done(_) => None,
    }
}

/// The line of a status that is about the branch.
pub open spec fn branch_line(status: Seq<char>) -> Seq<char> {
    let lines = lines_of(status);
    if lines.len() > 0 && "## "@.is_prefix_of(lines[0]) {
        lines[0]
    } else {
        Seq::empty()
    }
}

/// How the branch stands to its upstream: what git writes in brackets behind
/// the names of the two, which hold no bracket. Nothing, if they are even.
pub open spec fn branch_state(status: Seq<char>) -> Seq<char> {
    let line = branch_line(status);
    line.skip(first_index(line, '['))
}

/// How the branch stands to its upstream.
fn state_of_branch(status: &str) -> (r: String)
    ensures
        r@ == branch_state(status@),
{
    let lines: Vec<String> = split_lines(status);
    assert(texts(lines@) == lines_of(status@));
    if lines.len() == 0 {
        let none: String = String::new();
        assert(none@ =~= branch_state(status@));
        return none;
    }
    let chars: Vec<char> = to_chars(&lines[0]);
    assert(chars@ == lines_of(status@)[0]);
    let len: usize = chars.len();
    if !starts_with(&chars, "## ") {
        let none: String = String::new();
        assert(none@ =~= branch_state(status@));
        return none;
    }
    let mut i: usize = 0;
    while i < len && chars[i] != '['
        invariant
            i <= len == chars@.len(),
            forall|j: int| 0 <= j < i ==> chars@[j] != '[',
        decreases len - i,
    {
        i = i + 1;
    }
    proof {
        lemma_first_index(chars@, '[');
        let k = first_index(chars@, '[');
        assert(!(k < i) && !(i < k));
        assert(chars@.subrange(i as int, len as int) =~= chars@.skip(i as int));
    }
    from_chars(&chars, i, len)
}

/// The advice that a branch status gives rise to: the branch is both ahead of
/// its upstream and behind it, or only behind.
pub open spec fn rebase_advice(
    branch: Seq<char>,
    upstream: Seq<char>,
    status: Seq<char>,
) -> Option<Seq<char>> {
    let state = branch_state(status);
    if occurs(state, "ahead"@) && occurs(state, "behind"@) {
        Some(
            "Your branch '"@ + branch + "' has diverged from '"@ + upstream
                + "'.\nConsider rebasing to integrate changes cleanly."@,
        )
    } else if occurs(state, "[behind"@) {
        Some(
            "Your branch '"@ + branch + "' is behind '"@ + upstream
                + "'. A rebase is recommended."@,
        )
    } else {
        None
    }
}

/// The state after an answer.
pub open spec fn check_step(s: CheckState, output: Output) -> CheckState {
    match s {
        CheckState::WorkTree => if output.success {
            CheckState::Branch
        } else {
            CheckState::Done(None)
        },
        CheckState::Branch => if output.success {
            CheckState::Upstream { branch: trimmed(output.stdout) }
        } else {
            CheckState::Done(None)
        },
        CheckState::Upstream { branch } => if output.success {
            CheckState::Status { branch, upstream: trimmed(output.stdout) }
        } else {
            CheckState::Done(None)
        },
        CheckState::Status { branch, upstream } => CheckState::Done(
            rebase_advice(branch, upstream, output.stdout),
        ),
        CheckState::Done(advice) => CheckState::Done(advice),
    }
}

fn advise(branch: &str, upstream: &str, status: &str) -> (r: Option<String>)
    ensures
        r.deep_view() == rebase_advice(branch@, upstream@, status@),
{
    let state: String = state_of_branch(status);
    if contains(&state, "ahead") && contains(&state, "behind") {
        let mut r: String = concat("Your branch '", branch);
        r.append("' has diverged from '");
        r.append(upstream);
        r.append("'.\nConsider rebasing to integrate changes cleanly.");
        Some(r)
    } else if contains(&state, "[behind") {
        let mut r: String = concat("Your branch '", branch);
        r.append("' is behind '");
        r.append(upstream);
        r.append("'. A rebase is recommended.");
        Some(r)
    } else {
        None
    }
}

impl RebaseCheck {
    /// The command to run next, if the question is still open.
    pub fn query(&self) -> (r: Option<GitCommand>)
        ensures
            match r {
                Some(c) => check_query(self@) == Some(c@),
                None => check_query(self@) is None,
            },
    {
        match self {
            RebaseCheck::WorkTree => Some(GitCommand::InsideWorkTree),
            RebaseCheck::Branch => Some(GitCommand::Branch),
            RebaseCheck::Upstream { branch } => Some(GitCommand::UpstreamOf(branch.clone())),
            RebaseCheck::Status { .. } => Some(GitCommand::BranchStatus),
            RebaseCheck::Done(_) => None,
        }
    }
}

/// Takes in the answer to the command that a [`RebaseCheck`] asked for. It
/// starts at [`RebaseCheck::WorkTree`] and ends at [`RebaseCheck::Done`], with
/// the advice to give, if any. A command for the upstream that could not be
/// run at all counts as one that failed.
pub fn check_rebase_needed(state: RebaseCheck, output: &GitOutput) -> (r: RebaseCheck)
    ensures
        r@ == check_step(state@, output@),
{
    match state {
        RebaseCheck::WorkTree => if output.success {
            RebaseCheck::Branch
        } else {
            RebaseCheck::Done(None)
        },
        RebaseCheck::Branch => if output.success {
            RebaseCheck::Upstream { branch: trim(&output.stdout) }
        } else {
            RebaseCheck::Done(None)
        },
        RebaseCheck::Upstream { branch } => if output.success {
            RebaseCheck::Status { branch, upstream: trim(&output.stdout) }
        } else {
            RebaseCheck::Done(None)
        },
        RebaseCheck::Status { branch, upstream } => RebaseCheck::Done(
            advise(&branch, &upstream, &output.stdout),
        ),
        RebaseCheck::Done(advice) => RebaseCheck::Done(advice),
    }
}

/// The advice depends on the line about the branch alone, whatever the other
/// lines of the status say.
pub proof fn only_the_branch_line_counts(
    branch: Seq<char>,
    upstream: Seq<char>,
    line: Seq<char>,
    a: Seq<char>,
    b: Seq<char>,
)
    requires
        !line.contains('\n'),
    ensures
        rebase_advice(branch, upstream, line + "\n"@ + a) == rebase_advice(
            branch,
            upstream,
            line + "\n"@ + b,
        ),
{
    lemma_first_line(line, a);
    lemma_first_line(line, b);
}

/// The state after a list of answers.
pub open spec fn check_run(outputs: Seq<Output>) -> CheckState
    decreases outputs.len(),
{
    if outputs.len() == 0 {
        CheckState::WorkTree
    } else {
        check_step(check_run(outputs.drop_last()), outputs.last())
    }
}

/// The question is settled after four answers at the latest. There is advice
/// exactly if all of the first three commands succeeded and the status gives
/// rise to it; it names the branch and the upstream that git named.
pub proof fn check_settles(a: Output, b: Output, c: Output, d: Output)
    ensures
        check_run(seq![a, b, c, d]) == CheckState::Done(
            if a.success && b.success && c.success {
                rebase_advice(trimmed(b.stdout), trimmed(c.stdout), d.stdout)
            } else {
                None
            },
        ),
{
    reveal_with_fuel(check_run, 5);
    assert(seq![a, b, c, d].drop_last() =~= seq![a, b, c]);
    assert(seq![a, b, c].drop_last() =~= seq![a, b]);
    assert(seq![a, b].drop_last() =~= seq![a]);
    assert(seq![a].drop_last() =~= Seq::<Output>::empty());
}

// ---- rebasing ----

/// How far a rebase has come.
pub enum RebaseRun {
    /// Look for uncommitted changes.
    Check,
    /// Rebase.
    Rebase,
    /// Take back a rebase that failed.
    Abort,
    /// Over: there were uncommitted changes.
    Refused,
    /// Over: the rebase succeeded, or failed and was taken back.
    Finished(bool),
}

/// The command that is next.
pub open spec fn rebase_query(s: RebaseRun, upstream: Seq<char>) -> Option<Command> {
    match s {
        RebaseRun::Check => Some(Command::Porcelain),
        RebaseRun::Rebase => Some(Command::Rebase(upstream)),
        RebaseRun::Abort => Some(Command::AbortRebase),
        _ => None,
    }
}

/// The state after an answer.
pub open spec fn rebase_step(s: RebaseRun, output: Output) -> RebaseRun {
    match s {
        RebaseRun::Check => if trimmed(output.stdout).len() > 0 {
            RebaseRun::Refused
        } else {
            RebaseRun::Rebase
        },
        RebaseRun::Rebase => if output.success {
            RebaseRun::Finished(true)
        } else {
            RebaseRun::Abort
        },
        RebaseRun::Abort => RebaseRun::Finished(false),
        RebaseRun::Refused => RebaseRun::Refused,
        RebaseRun::Finished(done) => RebaseRun::Finished(done),
    }
}

impl RebaseRun {
    /// The command to run next, if the rebase is not over.
    pub fn query(&self, upstream: &str) -> (r: Option<GitCommand>)
        ensures
            match r {
                Some(c) => rebase_query(*self, upstream@) == Some(c@),
                None => rebase_query(*self, upstream@) is None,
            },
    {
        match self {
            RebaseRun::Check => Some(GitCommand::Porcelain),
            RebaseRun::Rebase => Some(GitCommand::Rebase(upstream.to_string())),
            RebaseRun::Abort => Some(GitCommand::AbortRebase),
            _ => None,
        }
    }

    /// How the rebase ended: whether it succeeded, or why it was refused.
    pub fn result(&self) -> (r: Option<Result<bool, DiffError>>)
        ensures
            match r {
                Some(Ok(done)) => *self == RebaseRun::Finished(done),
                Some(Err(e)) => *self == RebaseRun::Refused && e@ == Failure::DirtyTree,
                None => !(*self is Finished) && !(*self is Refused),
            },
    {
        match self {
            RebaseRun::Finished(done) => Some(Ok(*done)),
            RebaseRun::Refused => Some(Err(DiffError::DirtyTree)),
            _ => None,
        }
    }
}

/// Takes in the answer to the command that a [`RebaseRun`] asked for. It
/// starts at [`RebaseRun::Check`].
pub fn perform_rebase(state: RebaseRun, output: &GitOutput) -> (r: RebaseRun)
    ensures
        r == rebase_step(state, output@),
{
    match state {
        RebaseRun::Check => if has_uncommitted_changes(output) {
            RebaseRun::Refused
        } else {
            RebaseRun::Rebase
        },
        RebaseRun::Rebase => if output.success {
            RebaseRun::Finished(true)
        } else {
            RebaseRun::Abort
        },
        RebaseRun::Abort => RebaseRun::Finished(false),
        RebaseRun::Refused => RebaseRun::Refused,
        RebaseRun::Finished(done) => RebaseRun::Finished(done),
    }
}

/// Uncommitted changes stop a rebase before it begins; otherwise one that
/// succeeds is left as it is, and one that fails is taken back.
pub proof fn rebase_leaves_clean(a: Output, b: Output, c: Output, upstream: Seq<char>)
    ensures
        trimmed(a.stdout).len() > 0 ==> rebase_step(RebaseRun::Check, a) == RebaseRun::Refused,
        trimmed(a.stdout).len() == 0 && b.success ==> rebase_step(
            rebase_step(RebaseRun::Check, a),
            b,
        ) == RebaseRun::Finished(true),
        trimmed(a.stdout).len() == 0 && !b.success ==> {
            let failed = rebase_step(rebase_step(RebaseRun::Check, a), b);
            &&& rebase_query(failed, upstream) == Some(Command::AbortRebase)
            &&& rebase_step(failed, c) == RebaseRun::Finished(false)
        },
{
}

} // verus!
