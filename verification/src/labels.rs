//! The names of the two sides of a diff, taken from the arguments of a
//! `git diff` command.

use vstd::prelude::*;

use crate::text::{find, from_chars, occurs, occurs_at, to_chars, trim, trimmed};

verus! {

/// The first index at which `part` stands in `s`.
pub open spec fn first_occurrence(s: Seq<char>, part: Seq<char>) -> int {
    choose|i: int|
        occurs_at(s, part, i) && forall|j: int| 0 <= j < i ==> !#[trigger] occurs_at(s, part, j)
}

/// `s` up to the first `part` in it: all of it, if there is none.
pub open spec fn before_first(s: Seq<char>, part: Seq<char>) -> Seq<char> {
    if occurs(s, part) {
        s.take(first_occurrence(s, part))
    } else {
        s
    }
}

/// `s` behind the first `part` in it, if there is one.
pub open spec fn after_first(s: Seq<char>, part: Seq<char>) -> Option<Seq<char>> {
    if occurs(s, part) {
        Some(s.skip(first_occurrence(s, part) + part.len()))
    } else {
        None
    }
}

/// Cuts a string at the first `part` in it.
fn cut(s: &str, part: &str) -> (r: (String, Option<String>))
    ensures
        r.0@ == before_first(s@, part@),
        r.1.deep_view() == after_first(s@, part@),
{
    let chars: Vec<char> = to_chars(s);
    let wanted: Vec<char> = to_chars(part);
    let len: usize = chars.len();
    match find(&chars, &wanted, 0) {
        Some(i) => {
            proof {
                assert(occurs_at(s@, part@, i as int));
                let k = first_occurrence(s@, part@);
                assert(occurs_at(s@, part@, k) && forall|j: int|
                    0 <= j < k ==> !#[trigger] occurs_at(s@, part@, j));
                assert(!(k < i) && !(i < k));
            }
            let left: String = from_chars(&chars, 0, i);
            let right: String = from_chars(&chars, i + wanted.len(), len);
            assert(left@ =~= s@.take(i as int));
            assert(right@ =~= s@.skip(i + part@.len()));
            (left, Some(right))
        },
        None => {
            assert forall|j: int| !occurs_at(s@, part@, j) by {
                if j >= 0 {
                    assert(!occurs_at(chars@, wanted@, j));
                }
            }
            (s.to_string(), None)
        },
    }
}

/// A name without the white space around it, or `default` if nothing is left.
pub open spec fn label_or(name: Seq<char>, default: Seq<char>) -> Seq<char> {
    if trimmed(name).len() > 0 {
        trimmed(name)
    } else {
        default
    }
}

/// The left side of a range: what stands before the first two dots.
pub open spec fn left_label(args: Seq<char>) -> Seq<char> {
    label_or(before_first(args, ".."@), "Base"@)
}

/// The right side of a range: what stands between the first two dots and the
/// next two.
pub open spec fn right_label(args: Seq<char>) -> Seq<char> {
    match after_first(args, ".."@) {
        Some(rest) => label_or(before_first(rest, ".."@), "Target"@),
        None => "Target"@,
    }
}

fn choose_label(name: &str, default: &str) -> (r: String)
    ensures
        r@ == label_or(name@, default@),
{
    let label: String = trim(name);
    if label.as_str().is_empty() {
        default.to_string()
    } else {
        label
    }
}

/// The name of the left side of a diff with these arguments.
pub fn extract_left_label(args: &str) -> (r: String)
    ensures
        r@ == left_label(args@),
{
    let (left, _) = cut(args, "..");
    choose_label(&left, "Base")
}

/// The name of the right side of a diff with these arguments.
pub fn extract_right_label(args: &str) -> (r: String)
    ensures
        r@ == right_label(args@),
{
    let (_, right) = cut(args, "..");
    match right {
        Some(rest) => {
            let (middle, _) = cut(&rest, "..");
            choose_label(&middle, "Target")
        },
        None => "Target".to_string(),
    }
}

/// A range is labelled with the names on its two sides, without the white
/// space around them, or with the default where there is no name. The names
/// may hold no two dots in a row, nor may the first one end in a dot.
pub proof fn range_is_labelled(from: Seq<char>, to: Seq<char>)
    requires
        !occurs(from, ".."@),
        from.len() > 0 ==> from.last() != '.',
        !occurs(to, ".."@),
    ensures
        left_label(from + ".."@ + to) == label_or(from, "Base"@),
        right_label(from + ".."@ + to) == label_or(to, "Target"@),
{
    reveal_strlit("..");
    let dots = ".."@;
    let args = from + dots + to;
    let n = from.len() as int;
    assert(args.subrange(n, n + 2) =~= dots);
    assert(occurs_at(args, dots, n));
    assert forall|j: int| 0 <= j < n implies !#[trigger] occurs_at(args, dots, j) by {
        if occurs_at(args, dots, j) {
            assert(args.subrange(j, j + 2)[0] == '.');
            assert(from[j] == '.');
            assert(j < n - 1);
            assert(args.subrange(j, j + 2) =~= from.subrange(j, j + 2));
            assert(occurs_at(from, dots, j));
        }
    }
    let k = first_occurrence(args, dots);
    assert(occurs_at(args, dots, k) && forall|j: int|
        0 <= j < k ==> !#[trigger] occurs_at(args, dots, j));
    assert(!(k < n) && !(n < k));
    assert(args.take(n) =~= from);
    assert(args.skip(n + 2) =~= to);
}

} // verus!
