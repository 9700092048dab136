//! What glob patterns match, and what filters made of them let pass.

use regex::Regex;
use vstd::prelude::*;

use crate::filter::{
    all_short, compiled_globs, glob_matches, glob_passes, glob_steps, glob_text, passes, Filter,
};
use crate::patterns::{
    is_name_start, regex_matches, regex_of, step_source, steps_match, steps_source, Step,
};

verus! {

/// All of a text is what a pattern stands for.
pub open spec fn spells(pattern: Seq<char>, text: Seq<char>) -> bool {
    steps_match(glob_steps(pattern), text)
}

/// A pattern matches a path if it stands for all of it, or for all that follows
/// one of its slashes.
pub proof fn patterns_match_from_a_name_on(pattern: Seq<char>, path: Seq<char>)
    ensures
        glob_matches(pattern, path) <==> spells(pattern, path) || exists|
            a: Seq<char>,
            b: Seq<char>,
        |
            spells(pattern, b) && path == #[trigger] (a + seq!['/'] + b),
{
    let steps = glob_steps(pattern);
    if glob_matches(pattern, path) {
        let at = choose|at: int| is_name_start(path, at) && #[trigger] steps_match(
            steps,
            path.skip(at),
        );
        if at == 0 {
            assert(path.skip(0) =~= path);
        } else {
            assert(path =~= path.take(at - 1) + seq!['/'] + path.skip(at));
        }
    }
    if spells(pattern, path) {
        assert(path.skip(0) =~= path);
        assert(is_name_start(path, 0));
        assert(steps_match(steps, path.skip(0)));
    }
    if exists|a: Seq<char>, b: Seq<char>|
        spells(pattern, b) && path == #[trigger] (a + seq!['/'] + b) {
        let (a, b) = choose|a: Seq<char>, b: Seq<char>|
            spells(pattern, b) && path == #[trigger] (a + seq!['/'] + b);
        let at = (a.len() + 1) as int;
        assert(path.skip(at) =~= b);
        assert(is_name_start(path, at));
        assert(steps_match(steps, path.skip(at)));
    }
}

proof fn lemma_step(step: Step, rest: Seq<Step>)
    ensures
        (seq![step] + rest).len() > 0,
        (seq![step] + rest)[0] == step,
        (seq![step] + rest).skip(1) == rest,
        steps_source(seq![step] + rest) == step_source(step) + steps_source(rest),
{
    assert((seq![step] + rest).skip(1) =~= rest);
}

/// The end of a pattern stands for nothing more.
pub proof fn empty_pattern_spells_nothing(text: Seq<char>)
    ensures
        spells(Seq::empty(), text) <==> text.len() == 0,
{
}

/// A character other than a star and a question mark stands for itself.
pub proof fn characters_stand_for_themselves(c: char, rest: Seq<char>, text: Seq<char>)
    requires
        c != '*',
        c != '?',
    ensures
        spells(seq![c] + rest, text) <==> text.len() > 0 && text[0] == c && spells(
            rest,
            text.skip(1),
        ),
{
    let pattern = seq![c] + rest;
    assert(pattern.skip(1) =~= rest);
    lemma_step(Step::Exactly(c), glob_steps(rest));
}

/// A question mark stands for any one character but a slash.
pub proof fn question_mark_is_one_character(rest: Seq<char>, text: Seq<char>)
    ensures
        spells(seq!['?'] + rest, text) <==> text.len() > 0 && text[0] != '/' && spells(
            rest,
            text.skip(1),
        ),
{
    let pattern = seq!['?'] + rest;
    assert(pattern.skip(1) =~= rest);
    lemma_step(Step::One, glob_steps(rest));
}

/// A single star stands for any characters but slashes, or for none.
pub proof fn star_stays_in_a_name(rest: Seq<char>, text: Seq<char>)
    requires
        rest.len() > 0 ==> rest[0] != '*',
    ensures
        spells(seq!['*'] + rest, text) <==> exists|t: Seq<char>, u: Seq<char>|
            !t.contains('/') && spells(rest, u) && text == #[trigger] (t + u),
{
    let pattern = seq!['*'] + rest;
    assert(pattern.skip(1) =~= rest);
    assert(pattern.len() > 1 ==> pattern[1] == rest[0]);
    lemma_step(Step::Run, glob_steps(rest));
    let steps = glob_steps(rest);
    if spells(pattern, text) {
        let k = choose|k: int|
            0 <= k <= text.len() && !text.take(k).contains('/') && steps_match(
                steps,
                #[trigger] text.skip(k),
            );
        assert(text =~= text.take(k) + text.skip(k));
    }
    if exists|t: Seq<char>, u: Seq<char>|
        !t.contains('/') && spells(rest, u) && text == #[trigger] (t + u) {
        let (t, u) = choose|t: Seq<char>, u: Seq<char>|
            !t.contains('/') && spells(rest, u) && text == #[trigger] (t + u);
        let k = t.len() as int;
        assert(text.take(k) =~= t);
        assert(text.skip(k) =~= u);
        assert(steps_match(steps, text.skip(k)));
    }
}

/// Two stars stand for any characters on one line, slashes included, or for
/// none, at the end of a pattern as well as before anything but a slash.
pub proof fn two_stars_cross_slashes(rest: Seq<char>, text: Seq<char>)
    requires
        rest.len() > 0 ==> rest[0] != '/',
    ensures
        spells(seq!['*', '*'] + rest, text) <==> exists|t: Seq<char>, u: Seq<char>|
            !t.contains('\n') && spells(rest, u) && text == #[trigger] (t + u),
{
    let pattern = seq!['*', '*'] + rest;
    assert(pattern.skip(2) =~= rest);
    assert(pattern.len() > 2 ==> pattern[2] == rest[0]);
    lemma_step(Step::Anything, glob_steps(rest));
    lemma_anything(glob_steps(rest), text);
}

proof fn lemma_anything(steps: Seq<Step>, text: Seq<char>)
    ensures
        steps_match(seq![Step::Anything] + steps, text) <==> exists|t: Seq<char>, u: Seq<char>|
            !t.contains('\n') && steps_match(steps, u) && text == #[trigger] (t + u),
{
    lemma_step(Step::Anything, steps);
    if steps_match(seq![Step::Anything] + steps, text) {
        let k = choose|k: int|
            0 <= k <= text.len() && !text.take(k).contains('\n') && steps_match(
                steps,
                #[trigger] text.skip(k),
            );
        assert(text =~= text.take(k) + text.skip(k));
    }
    if exists|t: Seq<char>, u: Seq<char>|
        !t.contains('\n') && steps_match(steps, u) && text == #[trigger] (t + u) {
        let (t, u) = choose|t: Seq<char>, u: Seq<char>|
            !t.contains('\n') && steps_match(steps, u) && text == #[trigger] (t + u);
        let k = t.len() as int;
        assert(text.take(k) =~= t);
        assert(text.skip(k) =~= u);
        assert(steps_match(steps, text.skip(k)));
    }
}

/// Two stars before a slash do the same, and the slash may be missing.
pub proof fn two_stars_and_a_slash(rest: Seq<char>, text: Seq<char>)
    ensures
        spells(seq!['*', '*', '/'] + rest, text) <==> exists|t: Seq<char>, u: Seq<char>|
            !t.contains('\n') && (spells(rest, u) || u.len() > 0 && u[0] == '/' && spells(
                rest,
                u.skip(1),
            )) && text == #[trigger] (t + u),
{
    let pattern = seq!['*', '*', '/'] + rest;
    assert(pattern.skip(3) =~= rest);
    let inner = seq![Step::MaybeSlash] + glob_steps(rest);
    lemma_step(Step::MaybeSlash, glob_steps(rest));
    lemma_anything(inner, text);
    assert forall|u: Seq<char>| #[trigger]
        steps_match(inner, u) <==> spells(rest, u) || u.len() > 0 && u[0] == '/' && spells(
            rest,
            u.skip(1),
        ) by {}
    if spells(pattern, text) {
        let (t, u) = choose|t: Seq<char>, u: Seq<char>|
            !t.contains('\n') && steps_match(inner, u) && text == #[trigger] (t + u);
        assert(text == t + u);
    }
    if exists|t: Seq<char>, u: Seq<char>|
        !t.contains('\n') && (spells(rest, u) || u.len() > 0 && u[0] == '/' && spells(
            rest,
            u.skip(1),
        )) && text == #[trigger] (t + u) {
        let (t, u) = choose|t: Seq<char>, u: Seq<char>|
            !t.contains('\n') && (spells(rest, u) || u.len() > 0 && u[0] == '/' && spells(
                rest,
                u.skip(1),
            )) && text == #[trigger] (t + u);
        assert(steps_match(inner, u));
        assert(text == t + u);
    }
}

proof fn lemma_steps_compose(a: Seq<Step>, b: Seq<Step>, x: Seq<char>, y: Seq<char>)
    requires
        steps_match(a, x),
        steps_match(b, y),
    ensures
        steps_match(a + b, x + y),
    decreases a.len(),
{
    if a.len() == 0 {
        assert(a + b =~= b);
        assert(x + y =~= y);
    } else {
        let rest = a.skip(1);
        assert((a + b).skip(1) =~= rest + b);
        match a[0] {
            Step::Anything => {
                let k = choose|k: int|
                    0 <= k <= x.len() && !x.take(k).contains('\n') && steps_match(
                        rest,
                        #[trigger] x.skip(k),
                    );
                lemma_steps_compose(rest, b, x.skip(k), y);
                assert((x + y).take(k) =~= x.take(k));
                assert((x + y).skip(k) =~= x.skip(k) + y);
                assert(steps_match(rest + b, (x + y).skip(k)));
            },
            Step::Run => {
                let k = choose|k: int|
                    0 <= k <= x.len() && !x.take(k).contains('/') && steps_match(
                        rest,
                        #[trigger] x.skip(k),
                    );
                lemma_steps_compose(rest, b, x.skip(k), y);
                assert((x + y).take(k) =~= x.take(k));
                assert((x + y).skip(k) =~= x.skip(k) + y);
                assert(steps_match(rest + b, (x + y).skip(k)));
            },
            Step::MaybeSlash => {
                if steps_match(rest, x) {
                    lemma_steps_compose(rest, b, x, y);
                } else {
                    lemma_steps_compose(rest, b, x.skip(1), y);
                    assert((x + y).skip(1) =~= x.skip(1) + y);
                }
            },
            _ => {
                lemma_steps_compose(rest, b, x.skip(1), y);
                assert((x + y).skip(1) =~= x.skip(1) + y);
            },
        }
    }
}

proof fn lemma_globs_compose(a: Seq<char>, b: Seq<char>)
    requires
        a.len() > 0 ==> a.last() != '*',
    ensures
        glob_steps(a + b) == glob_steps(a) + glob_steps(b),
    decreases a.len(),
{
    let whole = a + b;
    if a.len() == 0 {
        assert(whole =~= b);
        assert(glob_steps(a) + glob_steps(b) =~= glob_steps(b));
    } else if a[0] == '*' && a.len() > 1 && a[1] == '*' {
        assert(a.len() > 2);
        if a[2] == '/' {
            let rest = a.skip(3);
            assert(whole.skip(3) =~= rest + b);
            lemma_globs_compose(rest, b);
            assert(glob_steps(whole) =~= glob_steps(a) + glob_steps(b));
        } else {
            let rest = a.skip(2);
            assert(whole.skip(2) =~= rest + b);
            lemma_globs_compose(rest, b);
            assert(glob_steps(whole) =~= glob_steps(a) + glob_steps(b));
        }
    } else {
        let rest = a.skip(1);
        assert(whole.skip(1) =~= rest + b);
        lemma_globs_compose(rest, b);
        assert(whole[0] == a[0]);
        if a.len() > 1 {
            assert(whole[1] == a[1]);
        }
        assert(glob_steps(whole) =~= glob_steps(a) + glob_steps(b));
    }
}

/// What two patterns stand for, one behind the other, is what the two together
/// stand for, unless a star ends the first.
pub proof fn patterns_compose(a: Seq<char>, b: Seq<char>, x: Seq<char>, y: Seq<char>)
    requires
        a.len() > 0 ==> a.last() != '*',
        spells(a, x),
        spells(b, y),
    ensures
        spells(a + b, x + y),
{
    lemma_globs_compose(a, b);
    lemma_steps_compose(glob_steps(a), glob_steps(b), x, y);
}

/// Wherever two stars stand in a pattern, they can stand for any text on one
/// line, with slashes in it.
pub proof fn two_stars_stand_for_anything(
    a: Seq<char>,
    b: Seq<char>,
    x: Seq<char>,
    t: Seq<char>,
    y: Seq<char>,
)
    requires
        a.len() > 0 ==> a.last() != '*',
        b.len() > 0 ==> b[0] != '*',
        spells(a, x),
        spells(b, y),
        !t.contains('\n'),
    ensures
        spells(a + (seq!['*', '*'] + b), x + (t + y)),
        glob_matches(a + (seq!['*', '*'] + b), x + (t + y)),
{
    let stars = seq!['*', '*'] + b;
    let text = t + y;
    if b.len() > 0 && b[0] == '/' {
        let rest = b.skip(1);
        assert(b =~= seq!['/'] + rest);
        characters_stand_for_themselves('/', rest, y);
        assert(stars =~= seq!['*', '*', '/'] + rest);
        two_stars_and_a_slash(rest, text);
    } else {
        two_stars_cross_slashes(b, text);
    }
    patterns_compose(a, stars, x, text);
    patterns_match_from_a_name_on(a + stars, x + text);
}

/// A pattern without stars and question marks stands for itself alone.
pub proof fn plain_patterns_spell_themselves(p: Seq<char>, text: Seq<char>)
    requires
        !p.contains('*'),
        !p.contains('?'),
    ensures
        spells(p, text) <==> text == p,
    decreases p.len(),
{
    if p.len() == 0 {
        assert(text.len() == 0 ==> text =~= p);
    } else {
        let rest = p.skip(1);
        assert(p.contains(p[0]));
        assert forall|c: char| rest.contains(c) implies p.contains(c) by {
            let i = choose|i: int| 0 <= i < rest.len() && rest[i] == c;
            assert(p[i + 1] == c);
        }
        assert(p =~= seq![p[0]] + rest);
        characters_stand_for_themselves(p[0], rest, text);
        if text.len() > 0 {
            plain_patterns_spell_themselves(rest, text.skip(1));
            assert(text =~= seq![text[0]] + text.skip(1));
        }
    }
}

/// A directory followed by two stars matches every path below it, at any depth,
/// wherever the directory is.
pub proof fn two_stars_match_everything_below(p: Seq<char>, t: Seq<char>, above: Seq<char>)
    requires
        !p.contains('*'),
        !p.contains('?'),
        !t.contains('\n'),
    ensures
        glob_matches(p + seq!['*', '*'], p + t),
        glob_matches(p + seq!['*', '*'], above + seq!['/'] + (p + t)),
{
    plain_patterns_spell_themselves(p, p);
    empty_pattern_spells_nothing(Seq::empty());
    if p.len() > 0 {
        assert(p.contains(p.last()));
    }
    two_stars_stand_for_anything(p, Seq::empty(), p, t, Seq::empty());
    assert(seq!['*', '*'] + Seq::<char>::empty() =~= seq!['*', '*']);
    assert(t + Seq::<char>::empty() =~= t);
    let pattern = p + seq!['*', '*'];
    patterns_match_from_a_name_on(pattern, above + seq!['/'] + (p + t));
}

// ---- the expression ----

/// The expression for a pattern.
pub open spec fn source(pattern: Seq<char>) -> Seq<char> {
    steps_source(glob_steps(pattern))
}

/// The expression for a pattern is anchored at the start of a name and at the
/// end of the path, and has a part for each part of the pattern. A character
/// that means something in an expression stands behind a backslash.
pub proof fn expressions_are_written_part_by_part(c: char, rest: Seq<char>)
    ensures
        glob_text(rest) == "(?:^|/)"@ + source(rest) + "$"@,
        source(Seq::empty()) == Seq::<char>::empty(),
        source(seq!['*', '*', '/'] + rest) == ".*"@ + ("/?"@ + source(rest)),
        (rest.len() > 0 ==> rest[0] != '/') ==> source(seq!['*', '*'] + rest) == ".*"@ + source(
            rest,
        ),
        (rest.len() > 0 ==> rest[0] != '*') ==> source(seq!['*'] + rest) == "[^/]*"@ + source(rest),
        source(seq!['?'] + rest) == "[^/]"@ + source(rest),
        c != '*' && c != '?' ==> source(seq![c] + rest) == if ".+(){}[]^$|\\"@.contains(c) {
            seq!['\\', c]
        } else {
            seq![c]
        } + source(rest),
{
    assert((seq!['*', '*', '/'] + rest).skip(3) =~= rest);
    lemma_step(Step::MaybeSlash, glob_steps(rest));
    lemma_step(Step::Anything, seq![Step::MaybeSlash] + glob_steps(rest));
    let two = seq!['*', '*'] + rest;
    assert(two.skip(2) =~= rest);
    assert(two.len() > 2 ==> two[2] == rest[0]);
    lemma_step(Step::Anything, glob_steps(rest));
    let one = seq!['*'] + rest;
    assert(one.skip(1) =~= rest);
    assert(one.len() > 1 ==> one[1] == rest[0]);
    lemma_step(Step::Run, glob_steps(rest));
    assert((seq!['?'] + rest).skip(1) =~= rest);
    lemma_step(Step::One, glob_steps(rest));
    assert((seq![c] + rest).skip(1) =~= rest);
    lemma_step(Step::Exactly(c), glob_steps(rest));
    reveal_strlit(".+(){}[]^$|\\");
    let special = ".+(){}[]^$|\\"@;
    assert(special.len() == 12);
    assert(special[0] == '.' && special[1] == '+' && special[2] == '(' && special[3] == ')'
        && special[4] == '{' && special[5] == '}' && special[6] == '[' && special[7] == ']'
        && special[8] == '^' && special[9] == '$' && special[10] == '|' && special[11] == '\\');
}

// ---- filters ----

/// A path passes a filter if one of the expressions for what to let in matches
/// it, or there is none, and none of those for what to leave out does.
pub proof fn filters_let_in_and_leave_out(f: Filter, path: Seq<char>)
    ensures
        passes(f, path) <==> (f.included.len() == 0 || exists|i: int|
            0 <= i < f.included.len() && #[trigger] regex_matches(f.included[i], path)) && forall|
            j: int,
        |
            0 <= j < f.excluded.len() ==> !#[trigger] regex_matches(f.excluded[j], path),
{
}

/// The same of patterns.
pub proof fn patterns_let_in_and_leave_out(
    included: Seq<Seq<char>>,
    excluded: Seq<Seq<char>>,
    path: Seq<char>,
)
    ensures
        glob_passes(included, excluded, path) <==> (included.len() == 0 || exists|i: int|
            0 <= i < included.len() && #[trigger] glob_matches(included[i], path)) && forall|j: int|
            0 <= j < excluded.len() ==> !#[trigger] glob_matches(excluded[j], path),
{
}

/// Patterns are short that have a thousand characters or fewer.
pub proof fn short_patterns_are_certain(patterns: Seq<Seq<char>>)
    ensures
        all_short(patterns) <==> forall|i: int|
            0 <= i < patterns.len() ==> (#[trigger] patterns[i]).len() <= 1000,
{
}

/// Patterns are compiled one by one, in their order; if some do not compile,
/// the reason is that of the first.
pub proof fn patterns_are_compiled_in_order(patterns: Seq<Seq<char>>)
    ensures
        match compiled_globs(patterns) {
            Ok(list) => list.len() == patterns.len() && forall|i: int|
                0 <= i < list.len() ==> regex_of(glob_text(#[trigger] patterns[i])) == Ok::<
                    Regex,
                    Seq<char>,
                >(list[i]),
            Err(message) => exists|i: int|
                0 <= i < patterns.len() && regex_of(glob_text(#[trigger] patterns[i])) == Err::<
                    Regex,
                    Seq<char>,
                >(message) && forall|j: int|
                    0 <= j < i ==> regex_of(glob_text(#[trigger] patterns[j])) is Ok,
        },
    decreases patterns.len(),
{
    if patterns.len() > 0 {
        let front = patterns.drop_last();
        let n = patterns.len() - 1;
        patterns_are_compiled_in_order(front);
        assert forall|i: int| 0 <= i < n implies #[trigger] patterns[i] == front[i] by {}
        match compiled_globs(front) {
            Err(message) => {
                let i = choose|i: int|
                    0 <= i < front.len() && regex_of(glob_text(#[trigger] front[i])) == Err::<
                        Regex,
                        Seq<char>,
                    >(message) && forall|j: int|
                        0 <= j < i ==> regex_of(glob_text(#[trigger] front[j])) is Ok;
                assert(patterns[i] == front[i]);
                assert forall|j: int| 0 <= j < i implies regex_of(
                    glob_text(#[trigger] patterns[j]),
                ) is Ok by {
                    assert(front[j] == patterns[j]);
                }
            },
            Ok(done) => {
                assert(patterns[n] == patterns.last());
                assert forall|j: int| 0 <= j < n implies regex_of(
                    glob_text(#[trigger] patterns[j]),
                ) is Ok by {
                    assert(front[j] == patterns[j]);
                }
                match regex_of(glob_text(patterns.last())) {
                    Err(message) => {},
                    Ok(re) => {
                        assert forall|i: int| 0 <= i < patterns.len() implies regex_of(
                            glob_text(#[trigger] patterns[i]),
                        ) == Ok::<Regex, Seq<char>>(done.push(re)[i]) by {
                            if i < n {
                                assert(front[i] == patterns[i]);
                            }
                        }
                    },
                }
            },
        }
    }
}

} // verus!
