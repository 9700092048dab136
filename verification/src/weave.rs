//! What holds of every edited file.

use vstd::prelude::*;
use vstd::seq_lib::to_multiset_contains;

use crate::edits::{
    deletes, descending, gap, gathered, kept, replacement, schedule, schedule_is_descending,
    schedule_keeps_edits, weave, Edit,
};

verus! {

// ---- lines ----

/// A line that no replacement or deletion names stays as it is.
pub proof fn unnamed_lines_stay(lines: Seq<Seq<char>>, ops: Seq<Edit>, p: int)
    requires
        forall|i: int|
            0 <= i < ops.len() && !((#[trigger] ops[i]) is Insert) ==> ops[i].line() != p,
    ensures
        kept(lines, ops, p) == seq![lines[p - 1]],
{
    lemma_replacement_is_given(ops, p);
}

/// A line that is deleted is gone, whatever else is done to it and however
/// often.
pub proof fn deletion_counts(lines: Seq<Seq<char>>, ops: Seq<Edit>, i: int)
    requires
        0 <= i < ops.len(),
        ops[i] is Delete,
    ensures
        kept(lines, ops, ops[i].line()) == Seq::<Seq<char>>::empty(),
{
}

/// Of the replacements of a line that is not deleted the last one given
/// counts.
pub proof fn last_replacement_counts(lines: Seq<Seq<char>>, ops: Seq<Edit>, i: int)
    requires
        0 <= i < ops.len(),
        ops[i] is Replace,
        !deletes(ops, ops[i].line()),
        forall|j: int|
            i < j < ops.len() && (#[trigger] ops[j]) is Replace ==> ops[j].line() != ops[i].line(),
    ensures
        kept(lines, ops, ops[i].line()) == seq![ops[i].text()],
{
    lemma_last_replacement(ops, i);
}

proof fn lemma_last_replacement(ops: Seq<Edit>, i: int)
    requires
        0 <= i < ops.len(),
        ops[i] is Replace,
        forall|j: int|
            i < j < ops.len() && (#[trigger] ops[j]) is Replace ==> ops[j].line() != ops[i].line(),
    ensures
        replacement(ops, ops[i].line()) == Some(ops[i].text()),
    decreases ops.len(),
{
    let front = ops.drop_last();
    if i < front.len() {
        assert(ops[ops.len() - 1] is Replace ==> ops[ops.len() - 1].line() != ops[i].line());
        assert forall|j: int| i < j < front.len() && (#[trigger] front[j]) is Replace implies
            front[j].line() != front[i].line() by {
            assert(front[j] == ops[j]);
        }
        lemma_last_replacement(front, i);
    }
}

/// What replaces a line was given, and is not nothing if anything was.
proof fn lemma_replacement_is_given(ops: Seq<Edit>, p: int)
    ensures
        match replacement(ops, p) {
            Some(content) => exists|i: int|
                0 <= i < ops.len() && (#[trigger] ops[i]) is Replace && ops[i].line() == p
                    && ops[i].text() == content,
            None => forall|i: int|
                0 <= i < ops.len() && (#[trigger] ops[i]) is Replace ==> ops[i].line() != p,
        },
    decreases ops.len(),
{
    if ops.len() > 0 {
        let front = ops.drop_last();
        let last = ops[ops.len() - 1];
        lemma_replacement_is_given(front, p);
        if !(last is Replace && last.line() == p) {
            match replacement(front, p) {
                Some(content) => {
                    let i = choose|i: int|
                        0 <= i < front.len() && (#[trigger] front[i]) is Replace && front[i].line()
                            == p && front[i].text() == content;
                    assert(ops[i] == front[i]);
                },
                None => {
                    assert forall|i: int|
                        0 <= i < ops.len() && (#[trigger] ops[i]) is Replace implies ops[i].line()
                        != p by {
                        if i < front.len() {
                            assert(front[i] == ops[i]);
                        }
                    }
                },
            }
        }
    }
}

// ---- insertions ----

/// The insertions for a gap stand in it in the order of their positions, and
/// at one position in the order of the new version: the schedule runs the
/// other way.
pub proof fn insertions_keep_their_order(ins: Seq<Edit>, p: int, n: int)
    ensures
        gathered(ins, p, n) == ins.filter(|e: Edit| gap(e, n) == p).reverse().map_values(
            |e: Edit| e.text(),
        ),
    decreases ins.len(),
{
    reveal(Seq::filter);
    let here = |e: Edit| gap(e, n) == p;
    let text = |e: Edit| e.text();
    if ins.len() == 0 {
        assert(gathered(ins, p, n) =~= ins.filter(here).reverse().map_values(text));
    } else {
        let front = ins.drop_last();
        let last = ins.last();
        insertions_keep_their_order(front, p, n);
        if here(last) {
            assert(ins.filter(here) == front.filter(here).push(last));
            assert(front.filter(here).push(last).reverse().map_values(text) =~= seq![last.text()]
                + front.filter(here).reverse().map_values(text));
        }
    }
}

// ---- the sequence of the operations ----

/// Two replacements of the same line, or two insertions with the same position
/// and order: only the sequence in which they are given tells them apart.
pub open spec fn same_place(a: Edit, b: Edit) -> bool {
    &&& a is Insert && b is Insert || a is Replace && b is Replace
    &&& a.line() == b.line() && a.rank() == b.rank()
}

/// An edit that shows in a file of `n` lines: an insertion, or the replacement
/// of a line that is not deleted.
pub open spec fn shows(ops: Seq<Edit>, e: Edit, n: int) -> bool {
    1 <= e.line() && (e is Insert || e.line() <= n && !deletes(ops, e.line()))
}

/// Edits in the same place of a file of `n` lines are the same edit.
pub open spec fn no_dispute(ops: Seq<Edit>, n: int) -> bool {
    forall|i: int, j: int|
        0 <= i < ops.len() && 0 <= j < ops.len() && shows(ops, ops[i], n) && same_place(
            #[trigger] ops[i],
            #[trigger] ops[j],
        ) ==> ops[i] == ops[j]
}

/// The sequence in which operations are listed is of no account, unless two
/// different ones are for the same place.
pub proof fn sequence_is_of_no_account(lines: Seq<Seq<char>>, a: Seq<Edit>, b: Seq<Edit>)
    requires
        a.to_multiset() == b.to_multiset(),
        no_dispute(a, lines.len() as int),
    ensures
        weave(lines, a, schedule(a, true), 1) == weave(lines, b, schedule(b, true), 1),
{
    let n = lines.len() as int;
    assert forall|p: int| 1 <= p <= n implies #[trigger] kept(lines, a, p) == kept(
        lines,
        b,
        p,
    ) by {
        lemma_same_kept(lines, a, b, p);
    }
    assert forall|p: int| 1 <= p <= n + 1 implies #[trigger] gathered(schedule(a, true), p, n)
        == gathered(schedule(b, true), p, n) by {
        lemma_same_insertions(a, b, p, n);
    }
    lemma_same_weave(lines, a, b, schedule(a, true), schedule(b, true), 1);
}

proof fn lemma_same_weave(
    lines: Seq<Seq<char>>,
    a: Seq<Edit>,
    b: Seq<Edit>,
    x: Seq<Edit>,
    y: Seq<Edit>,
    p: int,
)
    requires
        1 <= p,
        forall|q: int| 1 <= q <= lines.len() ==> #[trigger] kept(lines, a, q) == kept(lines, b, q),
        forall|q: int|
            1 <= q <= lines.len() + 1 ==> #[trigger] gathered(x, q, lines.len() as int) == gathered(
                y,
                q,
                lines.len() as int,
            ),
    ensures
        weave(lines, a, x, p) == weave(lines, b, y, p),
    decreases lines.len() + 1 - p,
{
    let n = lines.len() as int;
    if p <= n {
        lemma_same_weave(lines, a, b, x, y, p + 1);
        assert(kept(lines, a, p) == kept(lines, b, p));
        assert(gathered(x, p, n) == gathered(y, p, n));
    } else {
        assert(gathered(x, n + 1, n) == gathered(y, n + 1, n));
    }
}

proof fn lemma_same_members(a: Seq<Edit>, b: Seq<Edit>, i: int) -> (j: int)
    requires
        a.to_multiset() == b.to_multiset(),
        0 <= i < a.len(),
    ensures
        0 <= j < b.len(),
        b[j] == a[i],
{
    to_multiset_contains(a, a[i]);
    to_multiset_contains(b, a[i]);
    assert(a.contains(a[i]));
    choose|j: int| 0 <= j < b.len() && b[j] == a[i]
}

proof fn lemma_same_deletions(a: Seq<Edit>, b: Seq<Edit>, p: int)
    requires
        a.to_multiset() == b.to_multiset(),
        deletes(a, p),
    ensures
        deletes(b, p),
{
    let i = choose|i: int| 0 <= i < a.len() && (#[trigger] a[i]) is Delete && a[i].line() == p;
    let j = lemma_same_members(a, b, i);
    assert(b[j] is Delete);
}

proof fn lemma_same_kept(lines: Seq<Seq<char>>, a: Seq<Edit>, b: Seq<Edit>, p: int)
    requires
        a.to_multiset() == b.to_multiset(),
        no_dispute(a, lines.len() as int),
        1 <= p <= lines.len(),
    ensures
        kept(lines, a, p) == kept(lines, b, p),
{
    if deletes(a, p) {
        lemma_same_deletions(a, b, p);
    } else if deletes(b, p) {
        lemma_same_deletions(b, a, p);
    } else {
        lemma_replacement_is_given(a, p);
        lemma_replacement_is_given(b, p);
        if replacement(a, p) is Some {
            let i = choose|i: int|
                0 <= i < a.len() && (#[trigger] a[i]) is Replace && a[i].line() == p && a[i].text()
                    == replacement(a, p)->0;
            let j = lemma_same_members(a, b, i);
            assert(b[j] is Replace);
        }
        if replacement(b, p) is Some {
            let j = choose|j: int|
                0 <= j < b.len() && (#[trigger] b[j]) is Replace && b[j].line() == p && b[j].text()
                    == replacement(b, p)->0;
            let k = lemma_same_members(b, a, j);
            assert(a[k] is Replace);
            let i = choose|i: int|
                0 <= i < a.len() && (#[trigger] a[i]) is Replace && a[i].line() == p && a[i].text()
                    == replacement(a, p)->0;
            assert(same_place(a[i], a[k]));
        }
    }
}

/// How often an element is left by a filter.
proof fn lemma_filter_count(s: Seq<Edit>, f: spec_fn(Edit) -> bool, e: Edit)
    ensures
        s.filter(f).to_multiset().count(e) == if f(e) {
            s.to_multiset().count(e)
        } else {
            0
        },
    decreases s.len(),
{
    broadcast use vstd::seq_lib::group_to_multiset_ensures;

    reveal(Seq::filter);
    if s.len() > 0 {
        lemma_filter_count(s.drop_last(), f, e);
        assert(s =~= s.drop_last().push(s.last()));
    } else {
        assert(s.filter(f) =~= s);
    }
}

proof fn lemma_filter_descending(s: Seq<Edit>, f: spec_fn(Edit) -> bool)
    requires
        descending(s),
    ensures
        descending(s.filter(f)),
    decreases s.len(),
{
    reveal(Seq::filter);
    if s.len() > 0 {
        let front = s.drop_last();
        let last = s.last();
        assert(descending(front)) by {
            assert forall|i: int, j: int| 0 <= i < j < front.len() implies !(
            #[trigger] front[j]).outranks(#[trigger] front[i]) by {
                assert(!s[j].outranks(s[i]));
            }
        }
        lemma_filter_descending(front, f);
        if f(last) {
            let t = front.filter(f).push(last);
            assert forall|i: int, j: int| 0 <= i < j < t.len() implies !(#[trigger] t[j]).outranks(
                #[trigger] t[i],
            ) by {
                if j == t.len() - 1 {
                    assert(front.filter(f).contains(t[i]));
                    front.lemma_filter_contains_rev(f, t[i]);
                    let k = choose|k: int| 0 <= k < front.len() && front[k] == t[i];
                    assert(!s[s.len() - 1].outranks(s[k]));
                }
            }
        }
    }
}

/// A descending sequence is told by what it holds.
proof fn lemma_descending_unique(x: Seq<Edit>, y: Seq<Edit>)
    requires
        descending(x),
        descending(y),
        x.to_multiset() == y.to_multiset(),
        forall|a: Edit, b: Edit| #[trigger]
            x.contains(a) && #[trigger] x.contains(b) && !a.outranks(b) && !b.outranks(a) ==> a == b,
    ensures
        x == y,
    decreases x.len(),
{
    broadcast use vstd::seq_lib::group_to_multiset_ensures;

    assert(x.len() == x.to_multiset().len() == y.len());
    if x.len() == 0 {
        assert(x =~= y);
    } else {
        let a = x[x.len() - 1];
        let b = y[y.len() - 1];
        assert forall|e: Edit| #[trigger] x.contains(e) == y.contains(e) by {
            to_multiset_contains(x, e);
            to_multiset_contains(y, e);
        }
        assert(x.contains(a) && y.contains(b));
        assert(y.contains(a) && x.contains(b));
        let i = choose|i: int| 0 <= i < y.len() && y[i] == a;
        let j = choose|j: int| 0 <= j < x.len() && x[j] == b;
        assert(!b.outranks(a)) by {
            if i < y.len() - 1 {
                assert(!y[y.len() - 1].outranks(y[i]));
            }
        }
        assert(!a.outranks(b)) by {
            if j < x.len() - 1 {
                assert(!x[x.len() - 1].outranks(x[j]));
            }
        }
        assert(a == b);
        let s = x.drop_last();
        let t = y.drop_last();
        assert(x =~= s.push(a));
        assert(y =~= t.push(a));
        assert(s.to_multiset() =~= x.to_multiset().remove(a));
        assert(t.to_multiset() =~= y.to_multiset().remove(a));
        assert forall|i: int, j: int| 0 <= i < j < s.len() implies !(#[trigger] s[j]).outranks(
            #[trigger] s[i],
        ) by {
            assert(!x[j].outranks(x[i]));
        }
        assert forall|i: int, j: int| 0 <= i < j < t.len() implies !(#[trigger] t[j]).outranks(
            #[trigger] t[i],
        ) by {
            assert(!y[j].outranks(y[i]));
        }
        assert forall|e: Edit| #[trigger] s.contains(e) implies x.contains(e) by {
            let k = choose|k: int| 0 <= k < s.len() && s[k] == e;
            assert(x[k] == e);
        }
        lemma_descending_unique(s, t);
    }
}

/// How often an edit is among the insertions for a gap.
proof fn lemma_gap_count(ops: Seq<Edit>, p: int, n: int, e: Edit)
    ensures
        schedule(ops, true).filter(|x: Edit| gap(x, n) == p).to_multiset().count(e) == if e
            is Insert && gap(e, n) == p {
            ops.to_multiset().count(e)
        } else {
            0
        },
{
    schedule_keeps_edits(ops, true);
    lemma_filter_count(schedule(ops, true), |x: Edit| gap(x, n) == p, e);
    lemma_filter_count(ops, |x: Edit| (x is Insert) == true, e);
}

proof fn lemma_same_insertions(a: Seq<Edit>, b: Seq<Edit>, p: int, n: int)
    requires
        a.to_multiset() == b.to_multiset(),
        no_dispute(a, n),
        1 <= p <= n + 1,
    ensures
        gathered(schedule(a, true), p, n) == gathered(schedule(b, true), p, n),
{
    let here = |e: Edit| gap(e, n) == p;
    let s = schedule(a, true);
    let t = schedule(b, true);
    let x = s.filter(here);
    let y = t.filter(here);
    schedule_is_descending(a, true);
    schedule_is_descending(b, true);
    lemma_filter_descending(s, here);
    lemma_filter_descending(t, here);
    assert forall|e: Edit| #[trigger] x.to_multiset().count(e) == y.to_multiset().count(e) by {
        lemma_gap_count(a, p, n, e);
        lemma_gap_count(b, p, n, e);
    }
    assert(x.to_multiset() =~= y.to_multiset());
    assert forall|c: Edit, d: Edit| #[trigger]
        x.contains(c) && #[trigger] x.contains(d) && !c.outranks(d) && !d.outranks(c) implies c
        == d by {
        to_multiset_contains(x, c);
        to_multiset_contains(x, d);
        lemma_gap_count(a, p, n, c);
        lemma_gap_count(a, p, n, d);
        to_multiset_contains(a, c);
        to_multiset_contains(a, d);
        let i = choose|i: int| 0 <= i < a.len() && a[i] == c;
        let j = choose|j: int| 0 <= j < a.len() && a[j] == d;
        assert(same_place(a[i], a[j]));
    }
    lemma_descending_unique(x, y);
    insertions_keep_their_order(s, p, n);
    insertions_keep_their_order(t, p, n);
}

// ---- the length ----

/// A deletion of one of the lines from `p` to `n`.
pub open spec fn deletes_from(p: int, n: int) -> spec_fn(Edit) -> bool {
    |e: Edit| e is Delete && p <= e.line() <= n
}

/// An insertion that is carried out: position 0 is none.
pub open spec fn inserts_somewhere() -> spec_fn(Edit) -> bool {
    |e: Edit| e is Insert && e.line() >= 1
}

/// No line of a file of `n` lines is deleted twice.
pub open spec fn deletes_once(ops: Seq<Edit>, n: int) -> bool {
    forall|i: int, j: int|
        0 <= i < j < ops.len() && (#[trigger] ops[i]) is Delete && (#[trigger] ops[j]) is Delete
            && 1 <= ops[i].line() <= n ==> ops[i].line() != ops[j].line()
}

/// An edited file has as many lines as before, less the deletions of its
/// lines, and with the insertions, past the end too. A replacement does not
/// change the length.
pub proof fn edits_add_up(lines: Seq<Seq<char>>, ops: Seq<Edit>)
    requires
        deletes_once(ops, lines.len() as int),
    ensures
        weave(lines, ops, schedule(ops, true), 1).len() == lines.len() - ops.filter(
            deletes_from(1, lines.len() as int),
        ).len() + ops.filter(inserts_somewhere()).len(),
{
    broadcast use vstd::seq_lib::group_to_multiset_ensures;

    let n = lines.len() as int;
    let ins = schedule(ops, true);
    lemma_length_from(lines, ops, ins, 1);
    let x = ins.filter(gap_from(1, n));
    let y = ops.filter(inserts_somewhere());
    schedule_keeps_edits(ops, true);
    assert forall|e: Edit| #[trigger] x.to_multiset().count(e) == y.to_multiset().count(e) by {
        lemma_filter_count(ins, gap_from(1, n), e);
        lemma_filter_count(ops, inserts_somewhere(), e);
        lemma_filter_count(ops, |op: Edit| (op is Insert) == true, e);
    }
    assert(x.to_multiset() =~= y.to_multiset());
    assert(x.len() == x.to_multiset().len());
    assert(y.len() == y.to_multiset().len());
}

/// An insertion into gap `p` of a file of `n` lines, or into a later one.
spec fn gap_from(p: int, n: int) -> spec_fn(Edit) -> bool {
    |e: Edit| gap(e, n) >= p
}

/// Where a filter falls into two, so does what it leaves.
proof fn lemma_filter_split(
    s: Seq<Edit>,
    whole: spec_fn(Edit) -> bool,
    one: spec_fn(Edit) -> bool,
    other: spec_fn(Edit) -> bool,
)
    requires
        forall|e: Edit| #[trigger] whole(e) == (one(e) || other(e)),
        forall|e: Edit| !(#[trigger] one(e) && other(e)),
    ensures
        s.filter(whole).len() == s.filter(one).len() + s.filter(other).len(),
    decreases s.len(),
{
    reveal(Seq::filter);
    if s.len() > 0 {
        lemma_filter_split(s.drop_last(), whole, one, other);
        let last = s.last();
        assert(whole(last) == (one(last) || other(last)));
        assert(!(one(last) && other(last)));
    }
}

proof fn lemma_filter_none(s: Seq<Edit>, f: spec_fn(Edit) -> bool)
    requires
        forall|i: int| 0 <= i < s.len() ==> !f(#[trigger] s[i]),
    ensures
        s.filter(f).len() == 0,
    decreases s.len(),
{
    reveal(Seq::filter);
    if s.len() > 0 {
        let front = s.drop_last();
        assert(!f(s[s.len() - 1]));
        assert forall|i: int| 0 <= i < front.len() implies !f(#[trigger] front[i]) by {
            assert(front[i] == s[i]);
        }
        lemma_filter_none(front, f);
    }
}

/// A line that is not deleted twice is deleted once or not at all.
proof fn lemma_deleted_once(ops: Seq<Edit>, p: int, n: int)
    requires
        deletes_once(ops, n),
        1 <= p <= n,
    ensures
        ops.filter(deletes_from(p, p)).len() == if deletes(ops, p) {
            1int
        } else {
            0
        },
    decreases ops.len(),
{
    reveal(Seq::filter);
    let f = deletes_from(p, p);
    if ops.len() > 0 {
        let front = ops.drop_last();
        let last = ops[ops.len() - 1];
        assert forall|i: int, j: int|
            0 <= i < j < front.len() && (#[trigger] front[i]) is Delete && (
            #[trigger] front[j]) is Delete && 1 <= front[i].line() <= n implies front[i].line()
            != front[j].line() by {
            assert(front[i] == ops[i] && front[j] == ops[j]);
        }
        lemma_deleted_once(front, p, n);
        if f(last) {
            assert(!deletes(front, p)) by {
                if deletes(front, p) {
                    let i = choose|i: int|
                        0 <= i < front.len() && (#[trigger] front[i]) is Delete && front[i].line()
                            == p;
                    assert(front[i] == ops[i]);
                    assert(ops[i].line() != ops[ops.len() - 1].line());
                }
            }
        } else {
            assert(deletes(front, p) == deletes(ops, p)) by {
                if deletes(front, p) {
                    let i = choose|i: int|
                        0 <= i < front.len() && (#[trigger] front[i]) is Delete && front[i].line()
                            == p;
                    assert(front[i] == ops[i]);
                }
                if deletes(ops, p) {
                    let i = choose|i: int|
                        0 <= i < ops.len() && (#[trigger] ops[i]) is Delete && ops[i].line() == p;
                    assert(front[i] == ops[i]);
                }
            }
        }
    }
}

/// How long the edited file is from gap `p` on.
proof fn lemma_length_from(lines: Seq<Seq<char>>, ops: Seq<Edit>, ins: Seq<Edit>, p: int)
    requires
        deletes_once(ops, lines.len() as int),
        1 <= p <= lines.len() + 1,
    ensures
        weave(lines, ops, ins, p).len() == lines.len() + 1 - p - ops.filter(
            deletes_from(p, lines.len() as int),
        ).len() + ins.filter(gap_from(p, lines.len() as int)).len(),
    decreases lines.len() + 1 - p,
{
    let n = lines.len() as int;
    let here = |e: Edit| gap(e, n) == p;
    insertions_keep_their_order(ins, p, n);
    assert(gathered(ins, p, n).len() == ins.filter(here).len());
    lemma_filter_split(ins, gap_from(p, n), here, gap_from(p + 1, n));
    if p <= n {
        lemma_length_from(lines, ops, ins, p + 1);
        lemma_deleted_once(ops, p, n);
        lemma_filter_split(ops, deletes_from(p, n), deletes_from(p, p), deletes_from(p + 1, n));
    } else {
        lemma_filter_none(ins, gap_from(p + 1, n));
        lemma_filter_none(ops, deletes_from(p, n));
    }
}

} // verus!
