//! Regular expressions: the calls into the `regex` crate.

use regex::Regex;
use vstd::prelude::*;
use vstd::utf8::is_ascii_chars;

use crate::text::{all_digits, first_index, lemma_first_index};

verus! {

/// A compiled regular expression. Nothing is known of its inside.
#[verifier::external_type_specification]
#[verifier::external_body]
pub struct ExRegex(Regex);

/// The line that opens the part of a diff about one file.
pub const FILE_HEADER: &'static str = r"^diff --git a/(.+) b/(.+)$";

/// The line that opens a hunk.
pub const HUNK_HEADER: &'static str = r"^@@ -(\d+),?\d* \+(\d+),?\d* @@";

/// A terminal colour sequence.
pub const ANSI_ESCAPE: &'static str = r"\x1b\[.*?m";

/// So many steps are certain to compile.
pub const STEPS_ALLOWED: usize = 1000;

/// What `Regex::new` makes of a pattern: the compiled expression, or the text
/// of its error.
pub uninterp spec fn regex_of(pattern: Seq<char>) -> Result<Regex, Seq<char>>;

/// `re` is what the pattern compiles to.
pub open spec fn compiles_to(pattern: Seq<char>, re: Regex) -> bool {
    regex_of(pattern) matches Ok(c) && c == re
}

/// Whether `Regex::is_match` finds a match in a text.
pub uninterp spec fn regex_matches(re: Regex, text: Seq<char>) -> bool;

/// What `Regex::captures` finds in a text: the texts of all groups, the whole
/// match first, or nothing.
pub uninterp spec fn regex_groups(re: Regex, text: Seq<char>) -> Option<Seq<Option<Seq<char>>>>;

/// What `Regex::replace_all` makes of a text.
pub uninterp spec fn regex_replaced(
    re: Regex,
    text: Seq<char>,
    replacement: Seq<char>,
) -> Seq<char>;

/// A colour sequence stands at the start of a text: the escape character and a
/// bracket, and behind them, on the same line, the letter that ends it.
pub open spec fn begins_colour(s: Seq<char>) -> bool {
    &&& s.len() > 2 && s[0] == '\x1b' && s[1] == '['
    &&& first_index(s.skip(2), 'm') < s.len() - 2
    &&& !s.subrange(2, 2 + first_index(s.skip(2), 'm')).contains('\n')
}

/// A text without its colour sequences.
pub open spec fn without_colours(s: Seq<char>) -> Seq<char>
    decreases s.len(),
    via without_colours_shrinks
{
    if s.len() == 0 {
        Seq::empty()
    } else if begins_colour(s) {
        without_colours(s.skip(3 + first_index(s.skip(2), 'm')))
    } else {
        seq![s[0]] + without_colours(s.skip(1))
    }
}

#[via_fn]
proof fn without_colours_shrinks(s: Seq<char>) {
    if s.len() > 2 {
        lemma_first_index(s.skip(2), 'm');
    }
}

/// `line` opens the part of a diff about the old file `a` and the new file
/// `b`.
pub open spec fn is_file_header(line: Seq<char>, a: Seq<char>, b: Seq<char>) -> bool {
    &&& line == "diff --git a/"@ + a + " b/"@ + b
    &&& a.len() > 0 && !a.contains('\n')
    &&& b.len() > 0 && !b.contains('\n')
}

/// The line count of a hunk header: nothing, or a comma and digits.
pub open spec fn is_line_count(s: Seq<char>) -> bool {
    s.len() > 0 ==> s[0] == ',' && all_digits(s.skip(1))
}

/// `line` opens a hunk at line `a` of the old file and line `b` of the new
/// one, both in ASCII digits; `x` and `y` are the line counts.
pub open spec fn is_hunk_header(
    line: Seq<char>,
    a: Seq<char>,
    x: Seq<char>,
    b: Seq<char>,
    y: Seq<char>,
    rest: Seq<char>,
) -> bool {
    &&& line == "@@ -"@ + a + x + " +"@ + b + y + " @@"@ + rest
    &&& a.len() > 0 && all_digits(a) && is_line_count(x)
    &&& b.len() > 0 && all_digits(b) && is_line_count(y)
}

/// A character that means something in an expression and stands for itself
/// only behind a backslash.
pub open spec fn is_meta(c: char) -> bool {
    c == '.' || c == '+' || c == '(' || c == ')' || c == '{' || c == '}' || c == '[' || c == ']'
        || c == '^' || c == '$' || c == '|' || c == '\\' || c == '*' || c == '?'
}

/// One step of an expression about paths.
pub enum Step {
    /// Any characters on one line: `.*`.
    Anything,
    /// A slash or nothing: `/?`.
    MaybeSlash,
    /// Any characters but slashes: `[^/]*`.
    Run,
    /// One character, not a slash: `[^/]`.
    One,
    /// This character.
    Exactly(char),
}

/// How a step is written.
pub open spec fn step_source(step: Step) -> Seq<char> {
    match step {
        Step::Anything => ".*"@,
        Step::MaybeSlash => "/?"@,
        Step::Run => "[^/]*"@,
        Step::One => "[^/]"@,
        Step::Exactly(c) => if is_meta(c) {
            seq!['\\', c]
        } else {
            seq![c]
        },
    }
}

/// How steps are written, one behind the other.
pub open spec fn steps_source(steps: Seq<Step>) -> Seq<char>
    decreases steps.len(),
{
    if steps.len() == 0 {
        Seq::empty()
    } else {
        step_source(steps[0]) + steps_source(steps.skip(1))
    }
}

/// The expression for steps that lead from the start of a path, or from
/// behind a slash in it, to its end.
pub open spec fn path_expression(steps: Seq<Step>) -> Seq<char> {
    "(?:^|/)"@ + steps_source(steps) + "$"@
}

/// The steps lead through the whole text.
pub open spec fn steps_match(steps: Seq<Step>, text: Seq<char>) -> bool
    decreases steps.len(),
{
    if steps.len() == 0 {
        text.len() == 0
    } else {
        let rest = steps.skip(1);
        match steps[0] {
            Step::Anything => exists|k: int|
                0 <= k <= text.len() && !text.take(k).contains('\n') && steps_match(
                    rest,
                    #[trigger] text.skip(k),
                ),
            Step::MaybeSlash => steps_match(rest, text) || text.len() > 0 && text[0] == '/'
                && steps_match(rest, text.skip(1)),
            Step::Run => exists|k: int|
                0 <= k <= text.len() && !text.take(k).contains('/') && steps_match(
                    rest,
                    #[trigger] text.skip(k),
                ),
            Step::One => text.len() > 0 && text[0] != '/' && steps_match(rest, text.skip(1)),
            Step::Exactly(c) => text.len() > 0 && text[0] == c && steps_match(rest, text.skip(1)),
        }
    }
}

/// A place in a path at which a name can begin.
pub open spec fn is_name_start(path: Seq<char>, at: int) -> bool {
    0 <= at <= path.len() && (at == 0 || path[at - 1] == '/')
}

/// The steps lead from the start of the path, or from behind a slash in it,
/// to its end.
pub open spec fn path_matches(steps: Seq<Step>, path: Seq<char>) -> bool {
    exists|at: int| is_name_start(path, at) && #[trigger] steps_match(steps, path.skip(at))
}

/// Compiles a pattern. The call is `Regex::new`: its result depends on the
/// pattern alone. The three patterns of this module are well formed, so that
/// they compile. An expression about paths, once compiled, matches as its
/// steps say. One of at most [`STEPS_ALLOWED`] steps compiles: a step takes up
/// less than two kilobytes, and the crate allows an expression ten megabytes.
/// Whether a longer one compiles is left unsaid.
#[verifier::external_body]
pub(crate) fn compile(pattern: &str) -> (r: Result<Regex, String>)
    ensures
        regex_of(pattern@) == (match r {
            Ok(re) => Ok(re),
            Err(message) => Err(message@),
        }),
        pattern@ == FILE_HEADER@ || pattern@ == HUNK_HEADER@ || pattern@ == ANSI_ESCAPE@
            ==> r is Ok,
        forall|steps: Seq<Step>, text: Seq<char>|
            pattern@ == #[trigger] path_expression(steps) && r is Ok ==> #[trigger] regex_matches(
                r->Ok_0,
                text,
            ) == path_matches(steps, text),
        forall|steps: Seq<Step>|
            pattern@ == #[trigger] path_expression(steps) && steps.len() <= STEPS_ALLOWED ==> r is Ok,
{
    Regex::new(pattern).map_err(|e| e.to_string())
}

/// Whether a text holds a match. The call is `Regex::is_match`: its result
/// depends on the expression and the text alone.
#[verifier::external_body]
pub(crate) fn is_match(re: &Regex, text: &str) -> (r: bool)
    ensures
        r == regex_matches(*re, text@),
{
    re.is_match(text)
}

/// The groups of the first match. The call is `Regex::captures`, whose result
/// depends on the expression and the text alone. Of a file header it says
/// that both names are captured, the first as long as it can be, and that no
/// other line matches. Of a hunk header it says that a match captures both
/// numbers, that a line with ASCII digits matches with exactly these, and
/// that neither a line with another beginning nor any other line in ASCII
/// matches. What it captures from digits outside ASCII is left unsaid.
#[verifier::external_body]
pub(crate) fn captures(re: &Regex, text: &str) -> (r: Option<Vec<Option<String>>>)
    ensures
        r.deep_view() == regex_groups(*re, text@),
        compiles_to(FILE_HEADER@, *re) ==> match r.deep_view() {
            Some(g) => g.len() == 3 && g[1] is Some && g[2] is Some && is_file_header(
                text@,
                g[1]->0,
                g[2]->0,
            ) && forall|a: Seq<char>, b: Seq<char>| #[trigger]
                is_file_header(text@, a, b) ==> a.len() <= g[1]->0.len(),
            None => forall|a: Seq<char>, b: Seq<char>| !is_file_header(text@, a, b),
        },
        compiles_to(HUNK_HEADER@, *re) ==> {
            &&& r.deep_view() matches Some(g) ==> g.len() == 3 && g[1] is Some && g[2] is Some
                && "@@ -"@.is_prefix_of(text@)
            &&& forall|
                a: Seq<char>,
                x: Seq<char>,
                b: Seq<char>,
                y: Seq<char>,
                rest: Seq<char>,
            | #[trigger]
                is_hunk_header(text@, a, x, b, y, rest) ==> r.deep_view() is Some
                    && r.deep_view()->0[1] == Some(a) && r.deep_view()->0[2] == Some(b)
            &&& is_ascii_chars(text@) && r.deep_view() is Some ==> exists|
                a: Seq<char>,
                x: Seq<char>,
                b: Seq<char>,
                y: Seq<char>,
                rest: Seq<char>,
            | #[trigger]
                is_hunk_header(text@, a, x, b, y, rest)
        },
{
    re.captures(text).map(|c| c.iter().map(|m| m.map(|m| m.as_str().to_string())).collect())
}

/// Replaces every match. The call is `Regex::replace_all`: its result depends
/// on the expression and the two texts alone. Colour sequences that are
/// replaced by nothing are taken out, from left to right, each up to the first
/// letter that can end it.
#[verifier::external_body]
pub(crate) fn replace_all(re: &Regex, text: &str, replacement: &str) -> (r: String)
    ensures
        r@ == regex_replaced(*re, text@, replacement@),
        compiles_to(ANSI_ESCAPE@, *re) && replacement@.len() == 0 ==> r@ == without_colours(text@),
{
    re.replace_all(text, replacement).into_owned()
}

} // verus!
