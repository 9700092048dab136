//! What is compared with what, and the changes that come of it.

use vstd::prelude::*;

use crate::error::{DiffError, Failure};
use crate::git::{get_diff_output_with_args, Command, GitCommand, GitOutput, Output};
use crate::labels::{extract_left_label, extract_right_label, left_label, right_label};
use crate::parse::{
    all_plainly_read, all_sides, countable, files_read, is_countable, lemma_all_sides_insert,
    numbered, parse_diff_output, reading, sides, FileChanges, FileDiff, LineChange,
};
use crate::text::{concat, lines_of, split_lines, split_words, texts, words_of};

verus! {

/// Where a diff comes from.
pub enum DiffSource {
    /// The last commit against the working tree.
    Uncommitted,
    /// This reference against the working tree.
    ToRef(String),
    /// Two references.
    Between(String, String),
    /// Whatever these arguments of `git diff` select.
    WithArgs(String),
}

/// The mathematical reading of a [`DiffSource`].
pub enum Source {
    Uncommitted,
    ToRef(Seq<char>),
    Between(Seq<char>, Seq<char>),
    WithArgs(Seq<char>),
}

impl View for DiffSource {
    type V = Source;

    open spec fn view(&self) -> Source {
        match *self {
            DiffSource::Uncommitted => Source::Uncommitted,
            DiffSource::ToRef(r) => Source::ToRef(r@),
            DiffSource::Between(from, to) => Source::Between(from@, to@),
            DiffSource::WithArgs(args) => Source::WithArgs(args@),
        }
    }
}

/// The command that shows the differences of a source.
pub open spec fn diff_command(s: Source) -> Command {
    Command::Diff(
        match s {
            Source::Uncommitted => seq!["HEAD"@],
            Source::ToRef(r) => seq![r],
            Source::Between(from, to) => seq![from + ".."@ + to],
            Source::WithArgs(args) => words_of(args),
        },
    )
}

/// Untracked files belong to the changes of a source: to all that end in the
/// working tree.
pub open spec fn with_untracked(s: Source) -> bool {
    s is Uncommitted || s is ToRef
}

impl DiffSource {
    /// The command that shows the differences.
    pub fn command(&self) -> (r: GitCommand)
        ensures
            r@ == diff_command(self@),
    {
        let mut args: Vec<String> = Vec::new();
        match self {
            DiffSource::Uncommitted => {
                args.push("HEAD".to_string());
                assert(texts(args@) =~= seq!["HEAD"@]);
            },
            DiffSource::ToRef(reference) => {
                args.push(reference.clone());
                assert(texts(args@) =~= seq![reference@]);
            },
            DiffSource::Between(from, to) => {
                let range: String = concat(&concat(from, ".."), to);
                args.push(range);
                assert(texts(args@) =~= seq![range@]);
            },
            DiffSource::WithArgs(list) => {
                args = split_words(list);
            },
        }
        GitCommand::Diff(args)
    }

    /// Whether untracked files belong to the changes.
    pub fn shows_untracked(&self) -> (r: bool)
        ensures
            r == with_untracked(self@),
    {
        match self {
            DiffSource::Uncommitted => true,
            DiffSource::ToRef(_) => true,
            _ => false,
        }
    }
}

// ---- untracked files ----

/// The new side of a file of which every line is new.
pub open spec fn additions(content: Seq<char>) -> Seq<(usize, Seq<char>)> {
    let lines = lines_of(content);
    Seq::new(lines.len(), |i: int| ((i + 1) as usize, "+"@ + lines[i]))
}

/// The diff of an untracked file with this content: every line is an
/// addition. There is none for a file that could not be read as text.
pub fn build_untracked_entry(content: &Option<String>) -> (r: Option<FileDiff>)
    ensures
        match r {
            Some(d) => *content is Some && sides(d) == (
                Seq::<(usize, Seq<char>)>::empty(),
                additions(content->0@),
            ),
            None => *content is None,
        },
{
    match content {
        None => None,
        Some(text) => {
            let lines: Vec<String> = split_lines(text);
            let ghost all = additions(text@);
            let mut head: Vec<LineChange> = Vec::new();
            let mut i: usize = 0;
            assert(numbered(head@) =~= all.take(0));
            while i < lines.len()
                invariant
                    i <= lines@.len(),
                    texts(lines@) == lines_of(text@),
                    all == additions(text@),
                    numbered(head@) == all.take(i as int),
                decreases lines@.len() - i,
            {
                let line: String = concat("+", &lines[i]);
                let ghost before = head@;
                head.push((i + 1, line));
                proof {
                    assert(line@ == "+"@ + lines_of(text@)[i as int]) by {
                        assert(texts(lines@)[i as int] == lines@[i as int]@);
                    }
                    assert(numbered(head@) =~= numbered(before).push(((i + 1) as usize, line@)));
                    assert(numbered(head@) =~= all.take(i + 1));
                }
                i = i + 1;
            }
            assert(all.take(i as int) =~= all);
            let base: Vec<LineChange> = Vec::new();
            assert(numbered(base@) =~= Seq::<(usize, Seq<char>)>::empty());
            Some((base, head))
        },
    }
}

/// Untracked files: their paths, and their contents where they are text.
pub open spec fn contents(files: Seq<(String, Option<String>)>) -> Seq<
    (Seq<char>, Option<Seq<char>>),
> {
    Seq::new(files.len(), |i: int| (files[i].0@, files[i].1.deep_view()))
}

/// Changes with untracked files merged in. A path that is there already
/// stays as it is.
pub open spec fn merged(
    files: Map<Seq<char>, (Seq<(usize, Seq<char>)>, Seq<(usize, Seq<char>)>)>,
    untracked: Seq<(Seq<char>, Option<Seq<char>>)>,
) -> Map<Seq<char>, (Seq<(usize, Seq<char>)>, Seq<(usize, Seq<char>)>)>
    decreases untracked.len(),
{
    if untracked.len() == 0 {
        files
    } else {
        let before = merged(files, untracked.drop_last());
        let (path, content) = untracked.last();
        match content {
            Some(text) => if before.contains_key(path) {
                before
            } else {
                before.insert(path, (Seq::empty(), additions(text)))
            },
            None => before,
        }
    }
}

/// Merge untracked (new) files into existing changes.
pub fn merge_untracked_files(
    file_changes: &mut FileChanges,
    untracked: &Vec<(String, Option<String>)>,
)
    ensures
        all_sides(final(file_changes)@) == merged(
            all_sides(old(file_changes)@),
            contents(untracked@),
        ),
{
    let ghost start = all_sides(file_changes@);
    let ghost all = contents(untracked@);
    let mut i: usize = 0;
    assert(all.take(0) =~= Seq::<(Seq<char>, Option<Seq<char>>)>::empty());
    while i < untracked.len()
        invariant
            i <= untracked@.len(),
            all == contents(untracked@),
            all_sides(file_changes@) == merged(start, all.take(i as int)),
        decreases untracked@.len() - i,
    {
        let entry: &(String, Option<String>) = &untracked[i];
        proof {
            assert(all.take(i + 1).drop_last() =~= all.take(i as int));
            assert(all.take(i + 1).last() == (entry.0@, entry.1.deep_view()));
        }
        if !file_changes.contains_key(&entry.0) {
            if let Some(diff) = build_untracked_entry(&entry.1) {
                let path: String = entry.0.clone();
                proof {
                    lemma_all_sides_insert(file_changes@, path@, diff);
                }
                file_changes.insert(path, diff);
            }
        }
        i = i + 1;
    }
    assert(all.take(i as int) =~= all);
}

/// Merging untracked files changes no file that was there, and adds every
/// untracked text file under its path.
pub proof fn merging_only_adds(
    files: Map<Seq<char>, (Seq<(usize, Seq<char>)>, Seq<(usize, Seq<char>)>)>,
    untracked: Seq<(Seq<char>, Option<Seq<char>>)>,
)
    ensures
        files.submap_of(merged(files, untracked)),
        forall|p: Seq<char>| #[trigger]
            merged(files, untracked).contains_key(p) <==> files.contains_key(p) || exists|i: int|
                0 <= i < untracked.len() && (#[trigger] untracked[i]).0 == p && untracked[i].1 is Some,
    decreases untracked.len(),
{
    if untracked.len() > 0 {
        let front = untracked.drop_last();
        merging_only_adds(files, front);
        let before = merged(files, front);
        let after = merged(files, untracked);
        assert(before.submap_of(after));
        vstd::map_lib::lemma_submap_of_trans(files, before, after);
        assert forall|p: Seq<char>| #[trigger] after.contains_key(p) <==> files.contains_key(p)
            || exists|i: int|
            0 <= i < untracked.len() && (#[trigger] untracked[i]).0 == p && untracked[i].1 is Some by {
            if exists|i: int|
                0 <= i < front.len() && (#[trigger] front[i]).0 == p && front[i].1 is Some {
                let i = choose|i: int|
                    0 <= i < front.len() && (#[trigger] front[i]).0 == p && front[i].1 is Some;
                assert(untracked[i] == front[i]);
            }
            if exists|i: int|
                0 <= i < untracked.len() && (#[trigger] untracked[i]).0 == p
                    && untracked[i].1 is Some {
                let i = choose|i: int|
                    0 <= i < untracked.len() && (#[trigger] untracked[i]).0 == p
                        && untracked[i].1 is Some;
                if i < front.len() {
                    assert(front[i] == untracked[i]);
                }
            }
            assert(before.contains_key(p) <==> files.contains_key(p) || exists|i: int|
                0 <= i < front.len() && (#[trigger] front[i]).0 == p && front[i].1 is Some);
            if p == untracked.last().0 && untracked.last().1 is Some {
                assert(untracked[untracked.len() - 1].0 == p);
            }
        }
    }
}

// ---- loading ----

/// The changes of a diff with the names of its two sides.
pub struct Loaded {
    pub files: Map<Seq<char>, (Seq<(usize, Seq<char>)>, Seq<(usize, Seq<char>)>)>,
    pub left: Seq<char>,
    pub right: Seq<char>,
}

/// The changes with the names of the two sides, as they stand in a result.
pub open spec fn loaded_of(d: (FileChanges, String, String)) -> Loaded {
    Loaded { files: all_sides(d.0@), left: d.1@, right: d.2@ }
}

/// The lines in the output of `git diff` can be counted, where there is one.
pub open spec fn can_load(output: Output) -> bool {
    output.success ==> countable(lines_of(output.stdout))
}

/// The hunk headers in the output of `git diff` are read as what they look
/// like, where there is one.
pub open spec fn plainly_loaded(output: Output) -> bool {
    output.success ==> all_plainly_read(lines_of(output.stdout))
}

/// The changes in the output of `git diff`, if there is one.
pub open spec fn changes_in(output: Output) -> Result<
    Map<Seq<char>, (Seq<(usize, Seq<char>)>, Seq<(usize, Seq<char>)>)>,
    Failure,
> {
    if !output.success {
        Err(Failure::GitDiff(output.stderr))
    } else {
        Ok(files_read(reading(lines_of(output.stdout))))
    }
}

/// What loading a source comes to, given what git showed and the untracked
/// files.
pub open spec fn load(
    s: Source,
    output: Output,
    untracked: Seq<(Seq<char>, Option<Seq<char>>)>,
) -> Result<Loaded, Failure> {
    match changes_in(output) {
        Err(f) => Err(f),
        Ok(files) => Ok(
            match s {
                Source::Uncommitted => Loaded {
                    files: merged(files, untracked),
                    left: "HEAD"@,
                    right: "Working Tree"@,
                },
                Source::ToRef(r) => Loaded {
                    files: merged(files, untracked),
                    left: r,
                    right: "Working Tree"@,
                },
                Source::Between(from, to) => Loaded { files, left: from, right: to },
                Source::WithArgs(args) => Loaded {
                    files,
                    left: left_label(args),
                    right: right_label(args),
                },
            },
        ),
    }
}

/// A result of loading, as numbers and texts.
pub open spec fn load_result(r: Result<(FileChanges, String, String), DiffError>) -> Result<
    Loaded,
    Failure,
> {
    match r {
        Ok(d) => Ok(loaded_of(d)),
        Err(e) => Err(e@),
    }
}

/// Whether the lines in the output of `git diff` can be counted, where there
/// is one.
pub fn is_loadable(output: &GitOutput) -> (r: bool)
    ensures
        r == can_load(output@),
        plainly_loaded(output@),
{
    !output.success || is_countable(&output.stdout)
}

fn read_changes(output: &GitOutput) -> (r: Result<FileChanges, DiffError>)
    requires
        can_load(output@),
    ensures
        changes_in(output@) == (match r {
            Ok(files) => Ok(all_sides(files@)),
            Err(e) => Err(e@),
        }),
        plainly_loaded(output@),
{
    match get_diff_output_with_args(output) {
        Ok(text) => parse_diff_output(&text),
        Err(e) => Err(e),
    }
}

/// The changes that custom arguments select.
pub fn get_changes_with_args(args: &str, output: &GitOutput) -> (r: Result<
    (FileChanges, String, String),
    DiffError,
>)
    requires
        can_load(output@),
    ensures
        load_result(r) == load(Source::WithArgs(args@), output@, Seq::empty()),
        plainly_loaded(output@),
{
    match read_changes(output) {
        Ok(files) => Ok((files, extract_left_label(args), extract_right_label(args))),
        Err(e) => Err(e),
    }
}

/// The uncommitted changes, untracked files included.
pub fn get_uncommitted_changes(
    output: &GitOutput,
    untracked: &Vec<(String, Option<String>)>,
) -> (r: Result<(FileChanges, String, String), DiffError>)
    requires
        can_load(output@),
    ensures
        load_result(r) == load(Source::Uncommitted, output@, contents(untracked@)),
        plainly_loaded(output@),
{
    match read_changes(output) {
        Ok(mut files) => {
            merge_untracked_files(&mut files, untracked);
            Ok((files, "HEAD".to_string(), "Working Tree".to_string()))
        },
        Err(e) => Err(e),
    }
}

/// The changes from a reference to the working tree, untracked files
/// included.
pub fn get_changes_to_ref(
    reference: &str,
    output: &GitOutput,
    untracked: &Vec<(String, Option<String>)>,
) -> (r: Result<(FileChanges, String, String), DiffError>)
    requires
        can_load(output@),
    ensures
        load_result(r) == load(Source::ToRef(reference@), output@, contents(untracked@)),
        plainly_loaded(output@),
{
    match read_changes(output) {
        Ok(mut files) => {
            merge_untracked_files(&mut files, untracked);
            Ok((files, reference.to_string(), "Working Tree".to_string()))
        },
        Err(e) => Err(e),
    }
}

/// The changes between two references.
pub fn get_changes_between(from: &str, to: &str, output: &GitOutput) -> (r: Result<
    (FileChanges, String, String),
    DiffError,
>)
    requires
        can_load(output@),
    ensures
        load_result(r) == load(Source::Between(from@, to@), output@, Seq::empty()),
        plainly_loaded(output@),
{
    match read_changes(output) {
        Ok(files) => Ok((files, from.to_string(), to.to_string())),
        Err(e) => Err(e),
    }
}

/// Loads a source, from the answer to its command and the untracked files.
pub fn refresh_diff(
    source: &DiffSource,
    output: &GitOutput,
    untracked: &Vec<(String, Option<String>)>,
) -> (r: Result<(FileChanges, String, String), DiffError>)
    requires
        can_load(output@),
    ensures
        load_result(r) == load(source@, output@, contents(untracked@)),
        plainly_loaded(output@),
{
    match source {
        DiffSource::Uncommitted => get_uncommitted_changes(output, untracked),
        DiffSource::ToRef(reference) => get_changes_to_ref(reference, output, untracked),
        DiffSource::Between(from, to) => get_changes_between(from, to, output),
        DiffSource::WithArgs(args) => get_changes_with_args(args, output),
    }
}

/// Loads a source, from the answer to its command and the untracked files,
/// where the lines in the answer can be counted.
pub fn load_changes(
    source: &DiffSource,
    output: &GitOutput,
    untracked: &Vec<(String, Option<String>)>,
) -> (r: Option<Result<(FileChanges, String, String), DiffError>>)
    ensures
        match r {
            Some(result) => can_load(output@) && load_result(result) == load(
                source@,
                output@,
                contents(untracked@),
            ),
            None => !can_load(output@),
        },
        plainly_loaded(output@),
{
    if is_loadable(output) {
        Some(refresh_diff(source, output, untracked))
    } else {
        None
    }
}

} // verus!
