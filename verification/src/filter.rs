//! Choosing files by glob patterns.

use regex::Regex;
use vstd::prelude::*;

use crate::names::{index_of_name, lemma_map_of};
use crate::parse::FileChanges;
use crate::patterns::{
    compile, is_match, is_meta, is_name_start, path_expression, path_matches, regex_matches, regex_of,
    step_source, steps_match, steps_source, Step, STEPS_ALLOWED,
};
use crate::text::{push_char, texts, to_chars};

verus! {

fn is_special(c: char) -> (r: bool)
    requires
        c != '*',
        c != '?',
    ensures
        r == is_meta(c),
{
    c == '.' || c == '+' || c == '(' || c == ')' || c == '{' || c == '}' || c == '[' || c == ']'
        || c == '^' || c == '$' || c == '|' || c == '\\'
}

/// What a single character of a glob pattern stands for: `*` for any
/// characters but a slash, `?` for one character but a slash, and every other
/// character for itself.
pub open spec fn char_step(c: char) -> Step {
    if c == '*' {
        Step::Run
    } else if c == '?' {
        Step::One
    } else {
        Step::Exactly(c)
    }
}

/// What a glob pattern stands for: `**` for any characters, with an optional
/// slash where one follows it, and each of the other characters for its step.
pub open spec fn glob_steps(pattern: Seq<char>) -> Seq<Step>
    decreases pattern.len(),
{
    if pattern.len() == 0 {
        Seq::empty()
    } else if pattern[0] == '*' && pattern.len() > 1 && pattern[1] == '*' {
        if pattern.len() > 2 && pattern[2] == '/' {
            seq![Step::Anything] + (seq![Step::MaybeSlash] + glob_steps(pattern.skip(3)))
        } else {
            seq![Step::Anything] + glob_steps(pattern.skip(2))
        }
    } else {
        seq![char_step(pattern[0])] + glob_steps(pattern.skip(1))
    }
}

/// The regular expression for a glob pattern.
pub open spec fn glob_text(pattern: Seq<char>) -> Seq<char> {
    path_expression(glob_steps(pattern))
}

/// A path matches a glob pattern: all of it does, or what follows one of its
/// slashes.
pub open spec fn glob_matches(pattern: Seq<char>, path: Seq<char>) -> bool {
    path_matches(glob_steps(pattern), path)
}

proof fn lemma_first_step(step: Step, rest: Seq<Step>)
    ensures
        (seq![step] + rest).skip(1) == rest,
        (seq![step] + rest)[0] == step,
        steps_source(seq![step] + rest) == step_source(step) + steps_source(rest),
{
    assert((seq![step] + rest).skip(1) =~= rest);
}

/// Writes the regular expression for a glob pattern.
pub fn glob_source(pattern: &str) -> (re: String)
    ensures
        re@ == glob_text(pattern@),
{
    let mut re: String = "(?:^|/)".to_string();
    let ghost start = re@;
    let ghost whole = steps_source(glob_steps(pattern@));
    let chars: Vec<char> = to_chars(pattern);
    let len: usize = chars.len();
    let mut i: usize = 0;
    assert(pattern@.skip(0) =~= pattern@);
    while i < len
        invariant
            i <= len == chars@.len(),
            chars@ == pattern@,
            re@ + steps_source(glob_steps(pattern@.skip(i as int))) == start + whole,
        decreases len - i,
    {
        let ghost rest = pattern@.skip(i as int);
        let ghost before = re@;
        let ghost mut left = rest.skip(1);
        let ghost mut added = Seq::<char>::empty();
        let c: char = chars[i];
        assert(rest[0] == c);
        if c == '*' && i + 1 < len && chars[i + 1] == '*' {
            assert(rest[1] == '*');
            re.append(".*");
            i = i + 2;
            if i < len && chars[i] == '/' {
                assert(rest[2] == '/');
                re.append("/?");
                i = i + 1;
                proof {
                    left = rest.skip(3);
                    added = ".*"@ + "/?"@;
                    lemma_first_step(Step::MaybeSlash, glob_steps(left));
                    lemma_first_step(Step::Anything, seq![Step::MaybeSlash] + glob_steps(left));
                    assert(steps_source(glob_steps(rest)) =~= added + steps_source(
                        glob_steps(left),
                    ));
                }
            } else {
                proof {
                    left = rest.skip(2);
                    added = ".*"@;
                    lemma_first_step(Step::Anything, glob_steps(left));
                }
            }
        } else {
            if c == '*' {
                re.append("[^/]*");
            } else if c == '?' {
                re.append("[^/]");
            } else {
                if is_special(c) {
                    push_char(&mut re, '\\');
                }
                push_char(&mut re, c);
            }
            i = i + 1;
            proof {
                added = step_source(char_step(c));
                lemma_first_step(char_step(c), glob_steps(left));
            }
        }
        proof {
            assert(left =~= pattern@.skip(i as int));
            assert(re@ =~= before + added);
            assert(steps_source(glob_steps(rest)) == added + steps_source(glob_steps(left)));
            assert(re@ + steps_source(glob_steps(left)) =~= before + (added + steps_source(
                glob_steps(left),
            )));
        }
    }
    assert(re@ + Seq::<char>::empty() =~= re@);
    re.append("$");
    re
}

/// A pattern has no more steps than characters.
proof fn lemma_steps_len(pattern: Seq<char>)
    ensures
        glob_steps(pattern).len() <= pattern.len(),
    decreases pattern.len(),
{
    if pattern.len() > 0 {
        if pattern[0] == '*' && pattern.len() > 1 && pattern[1] == '*' {
            if pattern.len() > 2 && pattern[2] == '/' {
                lemma_steps_len(pattern.skip(3));
            } else {
                lemma_steps_len(pattern.skip(2));
            }
        } else {
            lemma_steps_len(pattern.skip(1));
        }
    }
}

/// A glob pattern that cannot be used, with the reason.
#[derive(Debug)]
pub struct GlobError {
    pub message: String,
}

/// Convert a simple glob pattern to a regular expression.
///
/// Supports `*` (any chars except `/`), `**` (any chars including `/`),
/// and `?` (single non-`/` char). All other regex metacharacters are
/// escaped.
pub fn glob_to_regex(pattern: &str) -> (r: Result<Regex, GlobError>)
    ensures
        regex_of(glob_text(pattern@)) == (match r {
            Ok(re) => Ok(re),
            Err(e) => Err(e.message@),
        }),
        r matches Ok(re) ==> forall|path: Seq<char>| #[trigger]
            regex_matches(re, path) == glob_matches(pattern@, path),
        pattern@.len() <= STEPS_ALLOWED ==> r is Ok,
{
    proof {
        lemma_steps_len(pattern@);
    }
    match compile(&glob_source(pattern)) {
        Ok(re) => Ok(re),
        Err(message) => Err(GlobError { message }),
    }
}

/// What a list of glob patterns compiles to, or the error of the first one
/// that does not compile.
pub open spec fn compiled_globs(patterns: Seq<Seq<char>>) -> Result<Seq<Regex>, Seq<char>>
    decreases patterns.len(),
{
    if patterns.len() == 0 {
        Ok(Seq::empty())
    } else {
        match compiled_globs(patterns.drop_last()) {
            Err(message) => Err(message),
            Ok(done) => match regex_of(glob_text(patterns.last())) {
                Err(message) => Err(message),
                Ok(re) => Ok(done.push(re)),
            },
        }
    }
}

proof fn lemma_globs_fail(patterns: Seq<Seq<char>>, k: int)
    requires
        0 <= k <= patterns.len(),
        compiled_globs(patterns.take(k)) is Err,
    ensures
        compiled_globs(patterns) == compiled_globs(patterns.take(k)),
    decreases patterns.len(),
{
    if k == patterns.len() {
        assert(patterns.take(k) =~= patterns);
    } else {
        assert(patterns.drop_last().take(k) =~= patterns.take(k));
        lemma_globs_fail(patterns.drop_last(), k);
    }
}

/// One of the glob patterns matches the path.
pub open spec fn any_glob_matches(patterns: Seq<Seq<char>>, path: Seq<char>) -> bool {
    exists|i: int| 0 <= i < patterns.len() && #[trigger] glob_matches(patterns[i], path)
}

/// All of the patterns are short enough to be certain to compile.
pub open spec fn all_short(patterns: Seq<Seq<char>>) -> bool {
    forall|i: int| 0 <= i < patterns.len() ==> (#[trigger] patterns[i]).len() <= STEPS_ALLOWED
}

fn compile_globs(patterns: &[String]) -> (r: Result<Vec<Regex>, GlobError>)
    ensures
        r matches Ok(list) ==> list@.len() == patterns@.len() && forall|path: Seq<char>| #[trigger]
            any_matches(list@, path) == any_glob_matches(texts(patterns@), path),
        all_short(texts(patterns@)) ==> r is Ok,
        compiled_globs(texts(patterns@)) == (match r {
            Ok(list) => Ok(list@),
            Err(e) => Err(e.message@),
        }),
{
    let ghost all = texts(patterns@);
    let mut list: Vec<Regex> = Vec::new();
    let mut i: usize = 0;
    assert(all.take(0) =~= Seq::<Seq<char>>::empty());
    while i < patterns.len()
        invariant
            i <= patterns@.len(),
            all == texts(patterns@),
            compiled_globs(all.take(i as int)) == Ok::<Seq<Regex>, Seq<char>>(list@),
            list@.len() == i,
            forall|j: int, path: Seq<char>|
                0 <= j < i ==> #[trigger] regex_matches(list@[j], path) == glob_matches(
                    all[j],
                    path,
                ),
        decreases patterns@.len() - i,
    {
        proof {
            assert(all.take(i + 1).drop_last() =~= all.take(i as int));
            assert(all.take(i + 1).last() == patterns@[i as int]@);
        }
        match glob_to_regex(&patterns[i]) {
            Ok(re) => {
                list.push(re);
            },
            Err(e) => {
                proof {
                    assert(all[i as int] == patterns@[i as int]@);
                    lemma_globs_fail(all, i + 1);
                }
                return Err(e);
            },
        }
        i = i + 1;
    }
    proof {
        assert(all.take(i as int) =~= all);
        assert forall|path: Seq<char>| #[trigger]
            any_matches(list@, path) == any_glob_matches(all, path) by {
            if any_matches(list@, path) {
                let j = choose|j: int|
                    0 <= j < list@.len() && #[trigger] regex_matches(list@[j], path);
                assert(glob_matches(all[j], path));
            }
            if any_glob_matches(all, path) {
                let j = choose|j: int| 0 <= j < all.len() && #[trigger] glob_matches(all[j], path);
                assert(regex_matches(list@[j], path));
            }
        }
    }
    Ok(list)
}

/// Which files are shown.
#[derive(Clone)]
pub struct FileFilter {
    included: Vec<Regex>,
    excluded: Vec<Regex>,
}

/// The mathematical reading of a [`FileFilter`].
pub struct Filter {
    pub included: Seq<Regex>,
    pub excluded: Seq<Regex>,
}

impl View for FileFilter {
    type V = Filter;

    closed spec fn view(&self) -> Filter {
        Filter { included: self.included@, excluded: self.excluded@ }
    }
}

/// One of the expressions matches the path.
pub open spec fn any_matches(list: Seq<Regex>, path: Seq<char>) -> bool {
    exists|i: int| 0 <= i < list.len() && #[trigger] regex_matches(list[i], path)
}

/// The path passes the filter: it is included, where anything is to be
/// included, and it is not excluded.
pub open spec fn passes(f: Filter, path: Seq<char>) -> bool {
    (f.included.len() == 0 || any_matches(f.included, path)) && !any_matches(f.excluded, path)
}

/// The path passes a filter made of these glob patterns.
pub open spec fn glob_passes(
    included: Seq<Seq<char>>,
    excluded: Seq<Seq<char>>,
    path: Seq<char>,
) -> bool {
    (included.len() == 0 || any_glob_matches(included, path)) && !any_glob_matches(excluded, path)
}

fn any_match(list: &Vec<Regex>, path: &str) -> (r: bool)
    ensures
        r == any_matches(list@, path@),
{
    let mut i: usize = 0;
    while i < list.len()
        invariant
            i <= list@.len(),
            forall|j: int| 0 <= j < i ==> !#[trigger] regex_matches(list@[j], path@),
        decreases list@.len() - i,
    {
        if is_match(&list[i], path) {
            assert(regex_matches(list@[i as int], path@));
            return true;
        }
        i = i + 1;
    }
    false
}

impl FileFilter {
    /// A filter from glob patterns for the files to let in and to leave out.
    pub fn new(include_patterns: &[String], exclude_patterns: &[String]) -> (r: Result<
        Self,
        GlobError,
    >)
        ensures
            match compiled_globs(texts(include_patterns@)) {
                Err(message) => r matches Err(e) && e.message@ == message,
                Ok(included) => match compiled_globs(texts(exclude_patterns@)) {
                    Err(message) => r matches Err(e) && e.message@ == message,
                    Ok(excluded) => r matches Ok(f) && f@ == (Filter { included, excluded }),
                },
            },
            all_short(texts(include_patterns@)) && all_short(texts(exclude_patterns@)) ==> r is Ok,
            r matches Ok(f) ==> forall|path: Seq<char>| #[trigger]
                passes(f@, path) == glob_passes(
                    texts(include_patterns@),
                    texts(exclude_patterns@),
                    path,
                ),
    {
        match compile_globs(include_patterns) {
            Err(e) => Err(e),
            Ok(included) => match compile_globs(exclude_patterns) {
                Err(e) => Err(e),
                Ok(excluded) => Ok(FileFilter { included, excluded }),
            },
        }
    }

    /// Whether the filter lets every file pass because it has no patterns.
    pub fn is_empty(&self) -> (r: bool)
        ensures
            r == (self@.included.len() == 0 && self@.excluded.len() == 0),
    {
        self.included.is_empty() && self.excluded.is_empty()
    }

    /// Returns true if the file path passes the filter.
    pub fn matches(&self, path: &str) -> (r: bool)
        ensures
            r == passes(self@, path@),
    {
        if !self.included.is_empty() && !any_match(&self.included, path) {
            return false;
        }
        if any_match(&self.excluded, path) {
            return false;
        }
        true
    }

    /// Keeps, of a set of changes, the files that pass.
    pub fn apply(&self, file_changes: &mut FileChanges)
        ensures
            final(file_changes)@ == old(file_changes)@.restrict(
                Set::new(|path: Seq<char>| passes(self@, path)),
            ),
    {
        let ghost before = file_changes@;
        let ghost chosen = Set::new(|path: Seq<char>| passes(self@, path));
        if self.is_empty() {
            assert(before.restrict(chosen) =~= before);
            return;
        }
        let mut flags: Vec<bool> = Vec::new();
        let entries = file_changes.entries();
        let ghost items = entries@;
        let mut i: usize = 0;
        while i < entries.len()
            invariant
                i <= entries@.len(),
                items == entries@,
                flags@.len() == i,
                forall|j: int| 0 <= j < i ==> flags@[j] == passes(self@, (#[trigger] items[j]).0@),
            decreases entries@.len() - i,
        {
            flags.push(self.matches(&entries[i].0));
            i = i + 1;
        }
        file_changes.keep_flagged(&flags);
        proof {
            lemma_map_of(items);
            assert forall|n: Seq<char>| #[trigger]
                file_changes@.dom().contains(n) == before.restrict(chosen).dom().contains(n) by {
                assert(file_changes@.contains_key(n) <==> before.contains_key(n)
                    && flags@[index_of_name(items, n)]);
                if before.contains_key(n) {
                    assert(items[index_of_name(items, n)].0@ == n);
                }
            }
            assert(file_changes@.dom() =~= before.restrict(chosen).dom());
            assert(file_changes@ =~= before.restrict(chosen));
        }
    }
}

/// A filter without patterns lets every path pass.
pub proof fn empty_filter_passes(f: Filter, path: Seq<char>)
    requires
        f.included.len() == 0,
        f.excluded.len() == 0,
    ensures
        passes(f, path),
{
}

/// What is excluded does not pass, even if it is included as well.
pub proof fn exclusion_wins(f: Filter, path: Seq<char>)
    requires
        any_matches(f.excluded, path),
    ensures
        !passes(f, path),
{
}

/// Filtering twice is filtering once.
pub proof fn filtering_is_idempotent<V>(f: Filter, files: Map<Seq<char>, V>)
    ensures
        ({
            let chosen = Set::new(|path: Seq<char>| passes(f, path));
            files.restrict(chosen).restrict(chosen) == files.restrict(chosen)
        }),
{
    let chosen = Set::new(|path: Seq<char>| passes(f, path));
    assert(files.restrict(chosen).restrict(chosen) =~= files.restrict(chosen));
}

/// A pattern without `*` and `?` matches the path that it spells, and every
/// path that ends in it behind a slash, and no other.
pub proof fn plain_pattern_is_itself(pattern: Seq<char>, path: Seq<char>)
    requires
        !pattern.contains('*'),
        !pattern.contains('?'),
    ensures
        glob_matches(pattern, path) <==> path == pattern || (seq!['/'] + pattern).is_suffix_of(
            path,
        ),
{
    assert forall|text: Seq<char>| #[trigger]
        steps_match(glob_steps(pattern), text) <==> text == pattern by {
        lemma_plain_steps(pattern, text);
    }
    let tail = seq!['/'] + pattern;
    if glob_matches(pattern, path) {
        let at = choose|at: int|
            is_name_start(path, at) && #[trigger] steps_match(
                glob_steps(pattern),
                path.skip(at),
            );
        if at == 0 {
            assert(path.skip(0) =~= path);
        } else {
            assert(path.skip(at - 1) =~= tail);
            assert(path.subrange(path.len() - tail.len(), path.len() as int) =~= path.skip(at - 1));
        }
    }
    if path == pattern {
        assert(path.skip(0) =~= path);
        assert(is_name_start(path, 0));
        assert(steps_match(glob_steps(pattern), path.skip(0)));
    }
    if tail.is_suffix_of(path) {
        let at = path.len() - pattern.len();
        let end = path.subrange(path.len() - tail.len(), path.len() as int);
        assert(end == tail);
        assert(path[at - 1] == end[0]);
        assert(path.skip(at) =~= end.skip(1));
        assert(tail.skip(1) =~= pattern);
        assert(is_name_start(path, at));
        assert(steps_match(glob_steps(pattern), path.skip(at)));
    }
}

proof fn lemma_plain_steps(pattern: Seq<char>, text: Seq<char>)
    requires
        !pattern.contains('*'),
        !pattern.contains('?'),
    ensures
        steps_match(glob_steps(pattern), text) <==> text == pattern,
    decreases pattern.len(),
{
    if pattern.len() > 0 {
        let rest = pattern.skip(1);
        assert(pattern.contains(pattern[0]));
        assert forall|c: char| rest.contains(c) implies pattern.contains(c) by {
            let i = choose|i: int| 0 <= i < rest.len() && rest[i] == c;
            assert(pattern[i + 1] == c);
        }
        let steps = glob_steps(pattern);
        lemma_first_step(char_step(pattern[0]), glob_steps(rest));
        assert(steps == seq![char_step(pattern[0])] + glob_steps(rest));
        assert(steps_match(steps, text) == (text.len() > 0 && text[0] == pattern[0] && steps_match(
            glob_steps(rest),
            text.skip(1),
        )));
        if text.len() > 0 {
            lemma_plain_steps(rest, text.skip(1));
            assert(seq![text[0]] + text.skip(1) =~= text);
            assert(seq![pattern[0]] + rest =~= pattern);
        }
    } else {
        assert(text.len() == 0 ==> text =~= pattern);
    }
}

} // verus!
