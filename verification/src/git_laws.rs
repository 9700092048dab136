//! What is asked of git, and what its answers come to.

use vstd::prelude::*;
use vstd::utf8::{encode_utf8, encode_utf8_decode_utf8, encode_utf8_valid_utf8, valid_utf8};

use crate::error::{failure_text, DiffError, Failure};
use crate::git::{
    arguments, branch_state, check_query, check_step, rebase_advice, rebase_query, rebase_step,
    untracked_paths, CheckState, Command, Output, RebaseRun,
};
use crate::labels::{after_first, before_first, first_occurrence, left_label, right_label};
use crate::parse::{all_sides, countable, files_read, reading, FileChanges};
use crate::quoting::{quoted_bytes, unquoted};
use crate::sources::{
    additions, can_load, contents, diff_command, load, load_result, merged, with_untracked, Loaded,
    Source,
};
use crate::text::{first_index, lemma_first_index, lines_of, occurs, occurs_at, trimmed, words_of};

verus! {

// ---- commands ----

/// What git is asked.
pub proof fn git_is_asked_so(args: Seq<Seq<char>>, name: Seq<char>)
    ensures
        arguments(Command::Diff(args)).len() == 2 + args.len(),
        arguments(Command::Diff(args))[0] == "diff"@,
        arguments(Command::Diff(args))[1] == "--no-color"@,
        forall|i: int|
            0 <= i < args.len() ==> arguments(Command::Diff(args))[2 + i] == #[trigger] args[i],
        arguments(Command::Upstream) == seq!["rev-parse"@, "--abbrev-ref"@, "HEAD@{u}"@],
        arguments(Command::UpstreamOf(name)) == seq![
            "rev-parse"@,
            "--abbrev-ref"@,
            name + "@{u}"@,
        ],
        arguments(Command::RepoRoot) == seq!["rev-parse"@, "--show-toplevel"@],
        arguments(Command::InsideWorkTree) == seq!["rev-parse"@, "--is-inside-work-tree"@],
        arguments(Command::Porcelain) == seq!["status"@, "--porcelain"@],
        arguments(Command::Untracked) == seq![
            "status"@,
            "--porcelain"@,
            "--untracked-files=all"@,
        ],
        arguments(Command::BranchStatus) == seq!["status"@, "-sb"@],
        arguments(Command::Branch) == seq!["symbolic-ref"@, "--short"@, "HEAD"@],
        arguments(Command::Rebase(name)) == seq!["rebase"@, name],
        arguments(Command::AbortRebase) == seq!["rebase"@, "--abort"@],
{
}

/// What is compared: the last commit or a reference with the working tree, two
/// references with each other, or what the arguments say, word by word. Only
/// against the working tree are there untracked files.
pub proof fn sources_are_compared_so(a: Seq<char>, b: Seq<char>)
    ensures
        diff_command(Source::Uncommitted) == Command::Diff(seq!["HEAD"@]),
        diff_command(Source::ToRef(a)) == Command::Diff(seq![a]),
        diff_command(Source::Between(a, b)) == Command::Diff(seq![a + ".."@ + b]),
        diff_command(Source::WithArgs(a)) == Command::Diff(words_of(a)),
        with_untracked(Source::Uncommitted),
        with_untracked(Source::ToRef(a)),
        !with_untracked(Source::Between(a, b)),
        !with_untracked(Source::WithArgs(a)),
{
}

// ---- quotes ----

/// The bytes `front` before those of what follows, if that can be read.
pub open spec fn led_by(front: Seq<u8>, rest: Option<Seq<u8>>) -> Option<Seq<u8>> {
    if rest is Some {
        Some(front + rest->0)
    } else {
        None
    }
}

/// A backslash with a letter, a quote or another backslash stands for one byte.
pub proof fn escapes_stand_for_bytes(rest: Seq<char>)
    ensures
        quoted_bytes(seq!['\\', 'a'] + rest) == led_by(seq![7u8], quoted_bytes(rest)),
        quoted_bytes(seq!['\\', 'b'] + rest) == led_by(seq![8u8], quoted_bytes(rest)),
        quoted_bytes(seq!['\\', 't'] + rest) == led_by(seq![9u8], quoted_bytes(rest)),
        quoted_bytes(seq!['\\', 'n'] + rest) == led_by(seq![10u8], quoted_bytes(rest)),
        quoted_bytes(seq!['\\', 'v'] + rest) == led_by(seq![11u8], quoted_bytes(rest)),
        quoted_bytes(seq!['\\', 'f'] + rest) == led_by(seq![12u8], quoted_bytes(rest)),
        quoted_bytes(seq!['\\', 'r'] + rest) == led_by(seq![13u8], quoted_bytes(rest)),
        quoted_bytes(seq!['\\', '"'] + rest) == led_by(seq![34u8], quoted_bytes(rest)),
        quoted_bytes(seq!['\\', '\\'] + rest) == led_by(seq![92u8], quoted_bytes(rest)),
{
    assert((seq!['\\', 'a'] + rest).skip(2) =~= rest);
    assert((seq!['\\', 'b'] + rest).skip(2) =~= rest);
    assert((seq!['\\', 't'] + rest).skip(2) =~= rest);
    assert((seq!['\\', 'n'] + rest).skip(2) =~= rest);
    assert((seq!['\\', 'v'] + rest).skip(2) =~= rest);
    assert((seq!['\\', 'f'] + rest).skip(2) =~= rest);
    assert((seq!['\\', 'r'] + rest).skip(2) =~= rest);
    assert((seq!['\\', '"'] + rest).skip(2) =~= rest);
    assert((seq!['\\', '\\'] + rest).skip(2) =~= rest);
}

/// A backslash with three octal digits stands for the byte with that number,
/// any other character for its own bytes, and any other backslash for nothing.
pub proof fn numbers_stand_for_bytes(a: char, b: char, c: char, rest: Seq<char>)
    ensures
        '0' <= a <= '3' && '0' <= b <= '7' && '0' <= c <= '7' ==> quoted_bytes(
            seq!['\\', a, b, c] + rest,
        ) == led_by(
            seq![(64 * (a as int - '0' as int) + 8 * (b as int - '0' as int) + (c as int
                - '0' as int)) as u8],
            quoted_bytes(rest),
        ),
        a != '\\' ==> quoted_bytes(seq![a] + rest) == led_by(
            encode_utf8(seq![a]),
            quoted_bytes(rest),
        ),
        quoted_bytes(Seq::empty()) == Some(Seq::<u8>::empty()),
        quoted_bytes(seq!['\\']) is None,
        '0' <= a <= '3' && (rest.len() < 2 || !('0' <= rest[0] <= '7') || !('0' <= rest[1] <= '7'))
            ==> quoted_bytes(seq!['\\', a] + rest) is None,
        !('0' <= a <= '3') && !"abtnvfr\"\\"@.contains(a) ==> quoted_bytes(seq!['\\', a] + rest)
            is None,
{
    assert((seq!['\\', a, b, c] + rest).skip(4) =~= rest);
    assert((seq![a] + rest).skip(1) =~= rest);
    reveal_strlit("abtnvfr\"\\");
    let all = "abtnvfr\"\\"@;
    assert(all[0] == 'a' && all[1] == 'b' && all[2] == 't' && all[3] == 'n' && all[4] == 'v'
        && all[5] == 'f' && all[6] == 'r' && all[7] == '"' && all[8] == '\\');
}

/// A path in quotes is the text whose bytes stand between them; without quotes
/// it stands for itself.
pub proof fn quotes_hold_the_bytes_of_a_path(inner: Seq<char>, path: Seq<char>)
    ensures
        quoted_bytes(inner) == Some(encode_utf8(path)) ==> unquoted(
            seq!['"'] + inner + seq!['"'],
        ) == path,
        quoted_bytes(inner) is None || !valid_utf8(quoted_bytes(inner)->0) ==> unquoted(
            seq!['"'] + inner + seq!['"'],
        ) == seq!['"'] + inner + seq!['"'],
        path.len() < 2 || path[0] != '"' || path.last() != '"' ==> unquoted(path) == path,
{
    let s = seq!['"'] + inner + seq!['"'];
    assert(s.subrange(1, s.len() - 1) =~= inner);
    encode_utf8_valid_utf8(path);
    encode_utf8_decode_utf8(path);
}

/// The untracked files are those on the lines that two question marks begin, in
/// their order, and no others.
pub proof fn question_marks_name_untracked_files(
    lines: Seq<Seq<char>>,
    path: Seq<char>,
    line: Seq<char>,
)
    ensures
        untracked_paths(Seq::empty()) == Seq::<Seq<char>>::empty(),
        untracked_paths(lines.push(seq!['?', '?', ' '] + path)) == untracked_paths(lines).push(
            unquoted(trimmed(path)),
        ),
        line.len() < 3 || line[0] != '?' || line[1] != '?' || line[2] != ' ' ==> untracked_paths(
            lines.push(line),
        ) == untracked_paths(lines),
{
    reveal_strlit("?? ");
    let marks = "?? "@;
    let named = seq!['?', '?', ' '] + path;
    assert(marks =~= named.subrange(0, 3));
    assert(named.skip(3) =~= path);
    assert(lines.push(named).drop_last() =~= lines);
    assert(lines.push(line).drop_last() =~= lines);
    if marks.is_prefix_of(line) {
        assert(line.subrange(0, 3)[0] == line[0]);
        assert(line.subrange(0, 3)[1] == line[1]);
        assert(line.subrange(0, 3)[2] == line[2]);
    }
}

// ---- does the branch need a rebase? ----

/// The advice goes by what stands behind the first bracket on the line about
/// the branch: both ahead and behind, or behind alone.
pub proof fn advice_goes_by_the_bracket(
    branch: Seq<char>,
    upstream: Seq<char>,
    status: Seq<char>,
    names: Seq<char>,
    state: Seq<char>,
)
    requires
        lines_of(status).len() > 0,
        lines_of(status)[0] == "## "@ + names + seq!['['] + state,
        !names.contains('['),
    ensures
        rebase_advice(branch, upstream, status) == if occurs(seq!['['] + state, "ahead"@) && occurs(
            seq!['['] + state,
            "behind"@,
        ) {
            Some(
                "Your branch '"@ + branch + "' has diverged from '"@ + upstream
                    + "'.\nConsider rebasing to integrate changes cleanly."@,
            )
        } else if occurs(seq!['['] + state, "[behind"@) {
            Some(
                "Your branch '"@ + branch + "' is behind '"@ + upstream
                    + "'. A rebase is recommended."@,
            )
        } else {
            None
        },
{
    reveal_strlit("## ");
    let line = "## "@ + names + seq!['['] + state;
    let at: int = names.len() as int + 3;
    lemma_first_index(line, '[');
    let k = first_index(line, '[');
    assert(line[at] == '[');
    assert(k == at) by {
        if k < at {
            if k >= 3 {
                assert(line[k] == names[k - 3]);
            } else {
                assert(line[k] == "## "@[k]);
            }
        }
    }
    assert(line.skip(at) =~= seq!['['] + state);
    assert("## "@ =~= line.subrange(0, 3));
    assert(branch_state(status) == seq!['['] + state);
}

/// A branch that git puts no bracket behind is even with its upstream, and so
/// is one that the status does not begin with a line about.
pub proof fn no_advice_without_a_bracket(
    branch: Seq<char>,
    upstream: Seq<char>,
    status: Seq<char>,
)
    requires
        lines_of(status).len() > 0 ==> !lines_of(status)[0].contains('[') || !"## "@.is_prefix_of(
            lines_of(status)[0],
        ),
    ensures
        rebase_advice(branch, upstream, status) is None,
{
    if lines_of(status).len() > 0 {
        let line = lines_of(status)[0];
        lemma_first_index(line, '[');
        let k = first_index(line, '[');
        if "## "@.is_prefix_of(line) && k < line.len() {
            assert(line.contains(line[k]));
        }
    }
    lemma_first_index(Seq::<char>::empty(), '[');
    lemma_empty_state(branch_state(status));
}

proof fn lemma_empty_state(state: Seq<char>)
    requires
        state.len() == 0,
    ensures
        !occurs(state, "ahead"@),
        !occurs(state, "[behind"@),
{
    reveal_strlit("ahead");
    reveal_strlit("[behind");
    assert forall|i: int| !occurs_at(state, "ahead"@, i) by {}
    assert forall|i: int| !occurs_at(state, "[behind"@, i) by {}
}

/// What is asked, one after the other: whether this is a work tree, which
/// branch it is on, what the upstream of that branch is, and how the two stand.
/// A question that fails ends it.
pub proof fn questions_follow_each_other(branch: Seq<char>, upstream: Seq<char>, answer: Output)
    ensures
        check_query(CheckState::WorkTree) == Some(Command::InsideWorkTree),
        check_query(CheckState::Branch) == Some(Command::Branch),
        check_query(CheckState::Upstream { branch }) == Some(Command::UpstreamOf(branch)),
        check_query(CheckState::Status { branch, upstream }) == Some(Command::BranchStatus),
        forall|advice: Option<Seq<char>>|
            (#[trigger] check_query(CheckState::Done(advice))) is None,
        !answer.success ==> check_step(CheckState::WorkTree, answer) == CheckState::Done(None)
            && check_step(CheckState::Branch, answer) == CheckState::Done(None) && check_step(
            CheckState::Upstream { branch },
            answer,
        ) == CheckState::Done(None),
        answer.success ==> check_step(CheckState::WorkTree, answer) == CheckState::Branch,
        answer.success ==> check_step(CheckState::Branch, answer) == (CheckState::Upstream {
            branch: trimmed(answer.stdout),
        }),
        answer.success ==> check_step(CheckState::Upstream { branch }, answer) == (
        CheckState::Status { branch, upstream: trimmed(answer.stdout) }),
        check_step(CheckState::Status { branch, upstream }, answer) == CheckState::Done(
            rebase_advice(branch, upstream, answer.stdout),
        ),
{
}

/// What is run for a rebase: the search for uncommitted changes, the rebase on
/// the upstream, and, only if that failed, its undoing.
pub proof fn rebase_runs_these_commands(upstream: Seq<char>, answer: Output)
    ensures
        rebase_query(RebaseRun::Check, upstream) == Some(Command::Porcelain),
        rebase_query(RebaseRun::Rebase, upstream) == Some(Command::Rebase(upstream)),
        rebase_query(RebaseRun::Abort, upstream) == Some(Command::AbortRebase),
        rebase_query(RebaseRun::Refused, upstream) is None,
        rebase_query(RebaseRun::Finished(true), upstream) is None,
        rebase_query(RebaseRun::Finished(false), upstream) is None,
        rebase_step(RebaseRun::Check, answer) == if trimmed(answer.stdout).len() > 0 {
            RebaseRun::Refused
        } else {
            RebaseRun::Rebase
        },
        rebase_step(RebaseRun::Rebase, answer) == if answer.success {
            RebaseRun::Finished(true)
        } else {
            RebaseRun::Abort
        },
        rebase_step(RebaseRun::Abort, answer) == RebaseRun::Finished(false),
{
}

/// What the user is told when git fails.
pub proof fn failures_are_told(reason: Seq<char>)
    ensures
        failure_text(Failure::GitDiff(reason)) == "Failed to execute git diff command: "@ + reason,
        failure_text(Failure::NotInRepository) == "Not in a git repository"@,
        failure_text(Failure::DirtyTree)
            == "Cannot rebase: you have uncommitted changes. Please commit or stash them first."@,
{
}

// ---- labels ----

proof fn lemma_no_dots_before(a: Seq<char>, b: Seq<char>, j: int)
    requires
        !occurs(a, ".."@),
        a.len() > 0 ==> a.last() != '.',
        0 <= j < a.len(),
    ensures
        !occurs_at(a + ".."@ + b, ".."@, j),
{
    reveal_strlit("..");
    let dots = ".."@;
    let s = a + dots + b;
    if occurs_at(s, dots, j) {
        let here = s.subrange(j, j + 2);
        assert(here[0] == '.' && here[1] == '.');
        assert(a[j] == s[j]);
        if j + 1 < a.len() {
            assert(a.subrange(j, j + 2) =~= here);
            assert(occurs_at(a, dots, j));
        } else {
            assert(a.last() == '.');
        }
    }
}

proof fn lemma_dots_at(a: Seq<char>, b: Seq<char>)
    requires
        !occurs(a, ".."@),
        a.len() > 0 ==> a.last() != '.',
    ensures
        occurs(a + ".."@ + b, ".."@),
        first_occurrence(a + ".."@ + b, ".."@) == a.len(),
{
    reveal_strlit("..");
    let dots = ".."@;
    let s = a + dots + b;
    let n = a.len() as int;
    assert(s.subrange(n, n + 2) =~= dots);
    assert(occurs_at(s, dots, n));
    assert forall|j: int| 0 <= j < n implies !#[trigger] occurs_at(s, dots, j) by {
        lemma_no_dots_before(a, b, j);
    }
    let k = first_occurrence(s, dots);
    assert(occurs_at(s, dots, k) && forall|j: int|
        0 <= j < k ==> !#[trigger] occurs_at(s, dots, j));
}

proof fn lemma_cut(a: Seq<char>, b: Seq<char>)
    requires
        !occurs(a, ".."@),
        a.len() > 0 ==> a.last() != '.',
    ensures
        before_first(a + ".."@ + b, ".."@) == a,
        after_first(a + ".."@ + b, ".."@) == Some(b),
{
    lemma_dots_at(a, b);
    lemma_around_dots(a, b);
}

proof fn lemma_around_dots(a: Seq<char>, b: Seq<char>)
    ensures
        (a + ".."@ + b).take(a.len() as int) == a,
        (a + ".."@ + b).skip((a.len() + ".."@.len()) as int) == b,
{
    let s = a + ".."@ + b;
    assert(s.take(a.len() as int) =~= a);
    assert(s.skip((a.len() + ".."@.len()) as int) =~= b);
}

/// A name, without the white space around it, or what stands for a missing one.
pub open spec fn named(name: Seq<char>, otherwise: Seq<char>) -> Seq<char> {
    if trimmed(name).len() == 0 {
        otherwise
    } else {
        trimmed(name)
    }
}

/// Without two dots all of the arguments are on the left.
pub proof fn arguments_without_dots_are_the_left_label(a: Seq<char>)
    requires
        !occurs(a, ".."@),
    ensures
        left_label(a) == named(a, "Base"@),
        right_label(a) == "Target"@,
{
}

/// The left label is what stands before the first two dots.
pub proof fn left_label_stands_before_the_dots(a: Seq<char>, rest: Seq<char>)
    requires
        !occurs(a, ".."@),
        a.len() > 0 ==> a.last() != '.',
    ensures
        left_label(a + ".."@ + rest) == named(a, "Base"@),
{
    lemma_cut(a, rest);
}

/// The right label is what stands behind the first two dots, where no more
/// follow.
pub proof fn right_label_stands_behind_the_dots(a: Seq<char>, b: Seq<char>)
    requires
        !occurs(a, ".."@),
        a.len() > 0 ==> a.last() != '.',
        !occurs(b, ".."@),
    ensures
        right_label(a + ".."@ + b) == named(b, "Target"@),
{
    lemma_cut(a, b);
}

/// Where two dots follow twice, the right label stands between them.
pub proof fn right_label_ends_at_the_next_dots(a: Seq<char>, b: Seq<char>, rest: Seq<char>)
    requires
        !occurs(a, ".."@),
        a.len() > 0 ==> a.last() != '.',
        !occurs(b, ".."@),
        b.len() > 0 ==> b.last() != '.',
    ensures
        right_label(a + ".."@ + (b + ".."@ + rest)) == named(b, "Target"@),
{
    lemma_cut(a, b + ".."@ + rest);
    lemma_cut(b, rest);
}

// ---- untracked files ----

/// Every line of an untracked file is a new one, with its number and a plus
/// sign before its text.
pub proof fn untracked_files_are_all_new(content: Seq<char>, i: int)
    ensures
        additions(content).len() == lines_of(content).len(),
        0 <= i < lines_of(content).len() && i < usize::MAX ==> additions(content)[i].0 == i + 1
            && additions(content)[i].1 == seq!['+'] + lines_of(content)[i],
{
    reveal_strlit("+");
    assert("+"@ =~= seq!['+']);
}

/// An untracked file that can be read as text is among the changes, with all of
/// its lines new, unless there are changes under its path already; where a path
/// is given twice, the first one counts.
pub proof fn untracked_files_are_merged(
    files: Map<Seq<char>, (Seq<(usize, Seq<char>)>, Seq<(usize, Seq<char>)>)>,
    untracked: Seq<(Seq<char>, Option<Seq<char>>)>,
    i: int,
)
    requires
        0 <= i < untracked.len(),
        untracked[i].1 is Some,
        forall|j: int|
            0 <= j < i ==> (#[trigger] untracked[j]).0 != untracked[i].0 || untracked[j].1 is None,
    ensures
        merged(files, untracked).contains_key(untracked[i].0),
        files.contains_key(untracked[i].0) ==> merged(files, untracked)[untracked[i].0]
            == files[untracked[i].0],
        !files.contains_key(untracked[i].0) ==> merged(files, untracked)[untracked[i].0] == (
            Seq::<(usize, Seq<char>)>::empty(),
            additions(untracked[i].1->0),
        ),
    decreases untracked.len(),
{
    let front = untracked.drop_last();
    let path = untracked[i].0;
    if i < front.len() {
        assert forall|j: int| 0 <= j < i implies (#[trigger] front[j]).0 != front[i].0
            || front[j].1 is None by {
            assert(untracked[j].0 != untracked[i].0 || untracked[j].1 is None);
        }
        untracked_files_are_merged(files, front, i);
    } else {
        assert forall|j: int| 0 <= j < front.len() implies (#[trigger] front[j]).0 != path
            || front[j].1 is None by {
            assert(untracked[j].0 != untracked[i].0 || untracked[j].1 is None);
        }
        lemma_not_merged(files, front, path);
    }
}

proof fn lemma_not_merged(
    files: Map<Seq<char>, (Seq<(usize, Seq<char>)>, Seq<(usize, Seq<char>)>)>,
    untracked: Seq<(Seq<char>, Option<Seq<char>>)>,
    path: Seq<char>,
)
    requires
        forall|j: int|
            0 <= j < untracked.len() ==> (#[trigger] untracked[j]).0 != path || untracked[j].1
                is None,
    ensures
        merged(files, untracked).contains_key(path) <==> files.contains_key(path),
        files.contains_key(path) ==> merged(files, untracked)[path] == files[path],
    decreases untracked.len(),
{
    if untracked.len() > 0 {
        let front = untracked.drop_last();
        assert forall|j: int| 0 <= j < front.len() implies (#[trigger] front[j]).0 != path
            || front[j].1 is None by {
            assert(front[j] == untracked[j]);
        }
        lemma_not_merged(files, front, path);
        assert(untracked[untracked.len() - 1].0 != path || untracked[untracked.len() - 1].1
            is None);
    }
}

/// No other file is added, and none that was there is changed.
pub proof fn merging_changes_nothing_else(
    files: Map<Seq<char>, (Seq<(usize, Seq<char>)>, Seq<(usize, Seq<char>)>)>,
    untracked: Seq<(Seq<char>, Option<Seq<char>>)>,
    path: Seq<char>,
)
    requires
        forall|j: int|
            0 <= j < untracked.len() ==> (#[trigger] untracked[j]).0 != path || untracked[j].1
                is None,
    ensures
        merged(files, untracked).contains_key(path) <==> files.contains_key(path),
        files.contains_key(path) ==> merged(files, untracked)[path] == files[path],
{
    lemma_not_merged(files, untracked, path);
}

/// The untracked files are handed on with their paths and contents.
pub proof fn untracked_files_are_handed_on(files: Seq<(String, Option<String>)>)
    ensures
        contents(files).len() == files.len(),
        forall|i: int|
            0 <= i < files.len() ==> (#[trigger] contents(files)[i]).0 == files[i].0@ && (contents(
                files,
            )[i].1 is Some <==> files[i].1 is Some) && (files[i].1 is Some ==> contents(
                files,
            )[i].1->0 == files[i].1->0@),
{
}

// ---- loading ----

/// An answer of git can be loaded unless its lines cannot be counted; one that
/// failed can.
pub proof fn answers_can_be_loaded(output: Output)
    ensures
        can_load(output) <==> !output.success || countable(lines_of(output.stdout)),
{
}

/// What is handed back of loading is what was loaded, or what went wrong.
pub proof fn results_are_what_was_loaded(
    r: Result<(FileChanges, String, String), DiffError>,
)
    ensures
        match r {
            Ok(d) => load_result(r) == Ok::<Loaded, Failure>(
                Loaded { files: all_sides(d.0@), left: d.1@, right: d.2@ },
            ),
            Err(e) => load_result(r) == Err::<Loaded, Failure>(e@),
        },
{
}

/// What is loaded is what git showed, with the untracked files where the source
/// has any, under the names of its two sides. Where git failed, nothing is.
pub proof fn sources_are_loaded_so(
    a: Seq<char>,
    b: Seq<char>,
    output: Output,
    untracked: Seq<(Seq<char>, Option<Seq<char>>)>,
    source: Source,
)
    ensures
        !output.success ==> load(source, output, untracked) == Err::<Loaded, Failure>(
            Failure::GitDiff(output.stderr),
        ),
        output.success ==> {
            let files = files_read(reading(lines_of(output.stdout)));
            &&& load(Source::Uncommitted, output, untracked) == Ok::<Loaded, Failure>(
                Loaded {
                    files: merged(files, untracked),
                    left: "HEAD"@,
                    right: "Working Tree"@,
                },
            )
            &&& load(Source::ToRef(a), output, untracked) == Ok::<Loaded, Failure>(
                Loaded { files: merged(files, untracked), left: a, right: "Working Tree"@ },
            )
            &&& load(Source::Between(a, b), output, untracked) == Ok::<Loaded, Failure>(
                Loaded { files, left: a, right: b },
            )
            &&& load(Source::WithArgs(a), output, untracked) == Ok::<Loaded, Failure>(
                Loaded { files, left: left_label(a), right: right_label(a) },
            )
        },
{
}

} // verus!
