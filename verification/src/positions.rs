//! Where everything stands in an edited file.

use vstd::prelude::*;

use crate::edits::{
    deletes, descending, gap, gathered, kept, lemma_gathered_is, place, replacement, schedule,
    schedule_is_descending, weave, Edit,
};

verus! {

/// How many of the numbers below `n` have a property.
pub open spec fn tally(n: int, holds: spec_fn(int) -> bool) -> int
    decreases n,
{
    if n <= 0 {
        0
    } else {
        tally(n - 1, holds) + if holds(n - 1) {
            1int
        } else {
            0
        }
    }
}

/// Line `p` is deleted by one of the edits.
pub open spec fn is_deleted(ops: Seq<Edit>, p: int) -> bool {
    exists|i: int| 0 <= i < ops.len() && (#[trigger] ops[i] matches Edit::Delete(m) && m == p)
}

/// How many of the first `n` lines come before position `p` and are not
/// deleted.
pub open spec fn lines_before(ops: Seq<Edit>, n: int, p: int) -> int {
    tally(n, |q: int| q + 1 < p && !is_deleted(ops, q + 1))
}

/// How many insertions are for position `p` or one before it; position 0 is
/// none.
pub open spec fn insertions_up_to(ops: Seq<Edit>, p: int) -> int {
    tally(
        ops.len() as int,
        |j: int| ops[j] matches Edit::Insert { base_pos, .. } && 1 <= base_pos <= p,
    )
}

/// The insertion `ops[j]` comes before `ops[i]`: it has the lower position; at
/// the same position the lower order; and with the same order it was given
/// later.
pub open spec fn comes_before(ops: Seq<Edit>, j: int, i: int) -> bool {
    match (ops[j], ops[i]) {
        (
            Edit::Insert { base_pos: p, order: a, .. },
            Edit::Insert { base_pos: q, order: b, .. },
        ) => 1 <= p && (p < q || p == q && (a < b || a == b && j > i)),
        _ => false,
    }
}

/// How many insertions come before `ops[i]`.
pub open spec fn insertions_before(ops: Seq<Edit>, i: int) -> int {
    tally(ops.len() as int, |j: int| comes_before(ops, j, i))
}

// ---- counting ----

proof fn lemma_tally_same(n: int, f: spec_fn(int) -> bool, g: spec_fn(int) -> bool)
    requires
        forall|i: int| 0 <= i < n ==> f(i) == #[trigger] g(i),
    ensures
        tally(n, f) == tally(n, g),
    decreases n,
{
    if n > 0 {
        assert(f(n - 1) == g(n - 1));
        lemma_tally_same(n - 1, f, g);
    }
}

proof fn lemma_tally_bound(n: int, f: spec_fn(int) -> bool)
    ensures
        0 <= tally(n, f),
        n >= 0 ==> tally(n, f) <= n,
    decreases n,
{
    if n > 0 {
        lemma_tally_bound(n - 1, f);
    }
}

proof fn lemma_tally_split(
    n: int,
    f: spec_fn(int) -> bool,
    g: spec_fn(int) -> bool,
    h: spec_fn(int) -> bool,
)
    requires
        forall|i: int| 0 <= i < n ==> #[trigger] f(i) == (g(i) || h(i)),
        forall|i: int| 0 <= i < n ==> !(#[trigger] g(i) && h(i)),
    ensures
        tally(n, f) == tally(n, g) + tally(n, h),
    decreases n,
{
    if n > 0 {
        assert(f(n - 1) == (g(n - 1) || h(n - 1)));
        assert(!(g(n - 1) && h(n - 1)));
        lemma_tally_split(n - 1, f, g, h);
    }
}

// ---- the schedule ----

/// The insertion `ops[j]` stands behind `ops[i]` in the schedule.
spec fn scheduled_after(ops: Seq<Edit>, j: int, i: int) -> bool {
    &&& ops[j] is Insert && ops[i] is Insert
    &&& ops[i].outranks(ops[j]) || !ops[j].outranks(ops[i]) && j > i
}

spec fn count_after(ops: Seq<Edit>, i: int) -> int {
    tally(ops.len() as int, |j: int| scheduled_after(ops, j, i))
}

/// Where a new edit goes in a schedule: every edit before that place outranks
/// it or equals it, and none behind does.
proof fn lemma_place_at(s: Seq<Edit>, op: Edit) -> (m: int)
    requires
        descending(s),
    ensures
        0 <= m <= s.len(),
        place(s, op) == s.insert(m, op),
        forall|x: int| 0 <= x < s.len() ==> (op.outranks(#[trigger] s[x]) <==> m <= x),
    decreases s.len(),
{
    if s.len() == 0 || !op.outranks(s.last()) {
        let m = s.len() as int;
        assert(s.push(op) =~= s.insert(m, op));
        assert forall|x: int| 0 <= x < s.len() implies !op.outranks(#[trigger] s[x]) by {
            if x < s.len() - 1 {
                assert(!s[s.len() - 1].outranks(s[x]));
            }
        }
        m
    } else {
        let front = s.drop_last();
        assert(descending(front)) by {
            assert forall|i: int, j: int| 0 <= i < j < front.len() implies !(
            #[trigger] front[j]).outranks(#[trigger] front[i]) by {
                assert(!s[j].outranks(s[i]));
            }
        }
        let m = lemma_place_at(front, op);
        assert forall|x: int| 0 <= x < s.len() implies (op.outranks(#[trigger] s[x]) <==> m
            <= x) by {
            if x < front.len() {
                assert(front[x] == s[x]);
            }
        }
        assert(front.insert(m, op).push(s.last()) =~= s.insert(m, op));
        m
    }
}

/// Every insertion is in the schedule, with so many behind it as it should
/// have.
proof fn lemma_rank(ops: Seq<Edit>, i: int) -> (k: int)
    requires
        0 <= i < ops.len(),
        ops[i] is Insert,
    ensures
        0 <= k < schedule(ops, true).len(),
        schedule(ops, true)[k] == ops[i],
        schedule(ops, true).len() - 1 - k == count_after(ops, i),
    decreases ops.len(),
{
    let n = ops.len() - 1;
    let front = ops.drop_last();
    let op = ops[n];
    let s = schedule(front, true);
    let f = |j: int| scheduled_after(ops, j, i);
    schedule_is_descending(front, true);
    if i < n {
        let k = lemma_rank(front, i);
        lemma_tally_same(n, |j: int| scheduled_after(front, j, i), f);
        if op is Insert {
            let m = lemma_place_at(s, op);
            assert(op.outranks(s[k]) <==> m <= k);
            if m <= k {
                assert(s.insert(m, op)[k + 1] == s[k]);
                k + 1
            } else {
                assert(s.insert(m, op)[k] == s[k]);
                k
            }
        } else {
            k
        }
    } else {
        let m = lemma_place_at(s, op);
        lemma_count_scheduled(front, |e: Edit| op.outranks(e));
        lemma_tally_same(
            n,
            |j: int| front[j] is Insert && (|e: Edit| op.outranks(e))(front[j]),
            |j: int| front[j] is Insert && op.outranks(front[j]),
        );
        lemma_suffix_from(s.len() as int, |x: int| op.outranks(s[x]), m);
        lemma_tally_same(
            s.len() as int,
            |x: int| (|e: Edit| op.outranks(e))(s[x]),
            |x: int| op.outranks(s[x]),
        );
        lemma_tally_same(n, |j: int| front[j] is Insert && op.outranks(front[j]), f);
        assert(!f(n));
        m
    }
}

/// How many insertions there are of a kind, counted where they are given and
/// where they are scheduled.
proof fn lemma_count_scheduled(ops: Seq<Edit>, f: spec_fn(Edit) -> bool)
    ensures
        tally(ops.len() as int, |j: int| ops[j] is Insert && f(ops[j])) == tally(
            schedule(ops, true).len() as int,
            |x: int| f(schedule(ops, true)[x]),
        ),
    decreases ops.len(),
{
    let s = schedule(ops, true);
    let given = |j: int| ops[j] is Insert && f(ops[j]);
    let sorted = |x: int| f(s[x]);
    if ops.len() > 0 {
        let n = ops.len() - 1;
        let front = ops.drop_last();
        let t = schedule(front, true);
        lemma_count_scheduled(front, f);
        lemma_tally_same(n, |j: int| front[j] is Insert && f(front[j]), given);
        if ops[n] is Insert {
            schedule_is_descending(front, true);
            let m = lemma_place_at(t, ops[n]);
            lemma_tally_insert(t, ops[n], m, f);
        }
    }
}

proof fn lemma_tally_insert(t: Seq<Edit>, e: Edit, m: int, f: spec_fn(Edit) -> bool)
    requires
        0 <= m <= t.len(),
    ensures
        tally((t.len() + 1) as int, |x: int| f(t.insert(m, e)[x])) == tally(
            t.len() as int,
            |x: int| f(t[x]),
        ) + if f(e) {
            1int
        } else {
            0
        },
    decreases t.len() - m,
{
    let s = t.insert(m, e);
    let a = |x: int| f(s[x]);
    let b = |x: int| f(t[x]);
    let n = t.len() as int;
    if m == n {
        lemma_tally_same(n, b, a);
        assert(a(n) == f(e));
    } else {
        let u = t.drop_last();
        lemma_tally_insert(u, e, m, f);
        assert(u.insert(m, e) =~= s.drop_last());
        lemma_tally_same(n - 1, |x: int| f(u[x]), b);
        lemma_tally_same(n, |x: int| f(u.insert(m, e)[x]), a);
        assert(s[n] == t[n - 1]);
        assert(a(n) == b(n - 1));
    }
}

proof fn lemma_suffix_from(n: int, f: spec_fn(int) -> bool, m: int)
    requires
        0 <= m <= n,
        forall|x: int| 0 <= x < n ==> (#[trigger] f(x) <==> m <= x),
    ensures
        tally(n, f) == n - m,
    decreases n,
{
    if n > 0 {
        assert(f(n - 1) <==> m <= n - 1);
        if m == n {
            assert forall|x: int| 0 <= x < n - 1 implies (#[trigger] f(x) <==> m - 1 <= x) by {
                assert(f(x) <==> m <= x);
            }
            lemma_suffix_from(n - 1, f, m - 1);
        } else {
            lemma_suffix_from(n - 1, f, m);
        }
    }
}

// ---- the edited file ----

/// Where the insertions for the gaps before `g` begin in a schedule.
proof fn lemma_cut(ins: Seq<Edit>, g: int, n: int) -> (m: int)
    requires
        descending(ins),
        forall|x: int| 0 <= x < ins.len() ==> (#[trigger] ins[x]) is Insert,
    ensures
        0 <= m <= ins.len(),
        forall|x: int| 0 <= x < ins.len() ==> (gap(#[trigger] ins[x], n) < g <==> m <= x),
    decreases ins.len(),
{
    if ins.len() == 0 || gap(ins.last(), n) >= g {
        assert forall|x: int| 0 <= x < ins.len() implies gap(#[trigger] ins[x], n) >= g by {
            if x < ins.len() - 1 {
                assert(!ins[ins.len() - 1].outranks(ins[x]));
            }
        }
        ins.len() as int
    } else {
        let front = ins.drop_last();
        assert forall|x: int| 0 <= x < front.len() implies (#[trigger] front[x]) is Insert by {
            assert(front[x] == ins[x]);
        }
        assert(descending(front)) by {
            assert forall|i: int, j: int| 0 <= i < j < front.len() implies !(
            #[trigger] front[j]).outranks(#[trigger] front[i]) by {
                assert(!ins[j].outranks(ins[i]));
            }
        }
        let m = lemma_cut(front, g, n);
        assert forall|x: int| 0 <= x < ins.len() implies (gap(#[trigger] ins[x], n) < g <==> m
            <= x) by {
            if x < front.len() {
                assert(front[x] == ins[x]);
            }
        }
        m
    }
}

proof fn lemma_all_inserts(ops: Seq<Edit>)
    ensures
        forall|x: int|
            0 <= x < schedule(ops, true).len() ==> (#[trigger] schedule(ops, true)[x]) is Insert,
    decreases ops.len(),
{
    if ops.len() > 0 {
        let front = ops.drop_last();
        lemma_all_inserts(front);
        if ops.last() is Insert {
            schedule_is_descending(front, true);
            let m = lemma_place_at(schedule(front, true), ops.last());
        }
    }
}

/// Of the scheduled insertions, those for the gaps before `g`.
spec fn gaps_before(ins: Seq<Edit>, g: int, n: int) -> int {
    tally(ins.len() as int, |x: int| 1 <= gap(ins[x], n) < g)
}

proof fn lemma_gathered_len(ins: Seq<Edit>, g: int, n: int)
    ensures
        gathered(ins, g, n).len() == tally(ins.len() as int, |x: int| gap(ins[x], n) == g),
    decreases ins.len(),
{
    if ins.len() > 0 {
        let front = ins.drop_last();
        lemma_gathered_len(front, g, n);
        lemma_tally_same(
            front.len() as int,
            |x: int| gap(front[x], n) == g,
            |x: int| gap(ins[x], n) == g,
        );
    }
}

proof fn lemma_single(n: int, at: int, f: spec_fn(int) -> bool)
    requires
        0 <= at < n,
        forall|q: int| 0 <= q < n && q != at ==> !#[trigger] f(q),
    ensures
        tally(n, f) == if f(at) {
            1int
        } else {
            0
        },
    decreases n,
{
    if at < n - 1 {
        assert(!f(n - 1));
        lemma_single(n - 1, at, f);
    } else {
        lemma_none(n - 1, f);
    }
}

proof fn lemma_none(n: int, f: spec_fn(int) -> bool)
    requires
        forall|q: int| 0 <= q < n ==> !#[trigger] f(q),
    ensures
        tally(n, f) == 0,
    decreases n,
{
    if n > 0 {
        assert(!f(n - 1));
        lemma_none(n - 1, f);
    }
}

proof fn lemma_deleted(ops: Seq<Edit>, p: int)
    ensures
        deletes(ops, p) == is_deleted(ops, p),
{
    if deletes(ops, p) {
        let i = choose|i: int| 0 <= i < ops.len() && (#[trigger] ops[i]) is Delete && ops[i].line()
            == p;
        assert(ops[i] matches Edit::Delete(m) && m == p);
    }
    if is_deleted(ops, p) {
        let i = choose|i: int|
            0 <= i < ops.len() && (#[trigger] ops[i] matches Edit::Delete(m) && m == p);
        assert(ops[i] is Delete && ops[i].line() == p);
    }
}

/// Where gap `g` begins.
spec fn offset(ops: Seq<Edit>, ins: Seq<Edit>, n: int, g: int) -> int {
    gaps_before(ins, g, n) + lines_before(ops, n, g)
}

proof fn lemma_offset_next(lines: Seq<Seq<char>>, ops: Seq<Edit>, ins: Seq<Edit>, g: int)
    requires
        1 <= g <= lines.len(),
    ensures
        ({
            let n = lines.len() as int;
            offset(ops, ins, n, g + 1) == offset(ops, ins, n, g) + gathered(ins, g, n).len() + kept(
                lines,
                ops,
                g,
            ).len()
        }),
{
    let n = lines.len() as int;
    lemma_gathered_len(ins, g, n);
    lemma_tally_split(
        ins.len() as int,
        |x: int| 1 <= gap(ins[x], n) < g + 1,
        |x: int| 1 <= gap(ins[x], n) < g,
        |x: int| gap(ins[x], n) == g,
    );
    let this = |q: int| q + 1 == g && !is_deleted(ops, q + 1);
    lemma_tally_split(
        n,
        |q: int| q + 1 < g + 1 && !is_deleted(ops, q + 1),
        |q: int| q + 1 < g && !is_deleted(ops, q + 1),
        this,
    );
    lemma_single(n, g - 1, this);
    lemma_deleted(ops, g);
}

/// The edited file from gap `g` on stands behind what comes before.
proof fn lemma_from_gap(lines: Seq<Seq<char>>, ops: Seq<Edit>, ins: Seq<Edit>, g: int)
    requires
        1 <= g <= lines.len() + 1,
    ensures
        ({
            let n = lines.len() as int;
            let all = weave(lines, ops, ins, 1);
            let rest = weave(lines, ops, ins, g);
            let at = offset(ops, ins, n, g);
            &&& 0 <= at
            &&& all.len() == at + rest.len()
            &&& forall|x: int| 0 <= x < rest.len() ==> #[trigger] all[at + x] == rest[x]
        }),
    decreases g,
{
    let n = lines.len() as int;
    let all = weave(lines, ops, ins, 1);
    if g == 1 {
        lemma_none(ins.len() as int, |x: int| 1 <= gap(ins[x], n) < 1);
        lemma_none(n, |q: int| q + 1 < 1 && !is_deleted(ops, q + 1));
    } else {
        lemma_from_gap(lines, ops, ins, g - 1);
        lemma_offset_next(lines, ops, ins, g - 1);
        let before = weave(lines, ops, ins, g - 1);
        let rest = weave(lines, ops, ins, g);
        let at = offset(ops, ins, n, g);
        let from = offset(ops, ins, n, g - 1);
        assert(before == gathered(ins, g - 1, n) + kept(lines, ops, g - 1) + rest);
        assert forall|x: int| 0 <= x < rest.len() implies #[trigger] all[at + x] == rest[x] by {
            assert(all[from + (at - from + x)] == before[at - from + x]);
        }
    }
}

/// An insertion stands behind the insertions that come before it and behind
/// every line before its position that is not deleted, whatever else is done to
/// the lines. Past the end, that is every line.
pub proof fn insertion_stands_in_its_place(lines: Seq<Seq<char>>, ops: Seq<Edit>, i: int)
    requires
        0 <= i < ops.len(),
        ops[i] matches Edit::Insert { base_pos, .. } && base_pos >= 1,
    ensures
        ({
            let all = weave(lines, ops, schedule(ops, true), 1);
            let at = insertions_before(ops, i) + lines_before(
                ops,
                lines.len() as int,
                ops[i]->base_pos as int,
            );
            0 <= at < all.len() && all[at] == ops[i]->Insert_content
        }),
{
    let n = lines.len() as int;
    let ins = schedule(ops, true);
    let len = ins.len() as int;
    let b = ops[i]->base_pos as int;
    schedule_is_descending(ops, true);
    lemma_all_inserts(ops);
    let k = lemma_rank(ops, i);
    let g = gap(ins[k], n);
    let j = lemma_cut(ins, g, n);
    let r = lemma_cut(ins, g + 1, n);
    assert forall|x: int| 0 <= x < len implies (gap(#[trigger] ins[x], n) == g <==> r <= x
        < j) by {}
    lemma_gathered_is(ins, r, j, g, n);
    assert(gap(ins[k], n) == g);
    assert(r <= k < j);
    lemma_from_gap(lines, ops, ins, g);
    let rest = weave(lines, ops, ins, g);
    let all = weave(lines, ops, ins, 1);
    let x = j - 1 - k;
    assert(gathered(ins, g, n)[x] == ins[k].text());
    assert(rest[x] == ins[k].text());
    assert(all[offset(ops, ins, n, g) + x] == rest[x]);
    // The place in numbers
    lemma_suffix_from(len, |y: int| gap(ins[y], n) < g, j);
    lemma_tally_split(
        len,
        |y: int| gap(ins[y], n) < g,
        |y: int| gap(ins[y], n) < 1,
        |y: int| 1 <= gap(ins[y], n) < g,
    );
    let none = |e: Edit| e.line() == 0;
    lemma_count_scheduled(ops, none);
    lemma_tally_same(len, |y: int| gap(ins[y], n) < 1, |y: int| none(ins[y]));
    lemma_tally_split(
        ops.len() as int,
        |y: int| scheduled_after(ops, y, i),
        |y: int| comes_before(ops, y, i),
        |y: int| ops[y] is Insert && none(ops[y]),
    );
    lemma_tally_same(
        n,
        |q: int| q + 1 < g && !is_deleted(ops, q + 1),
        |q: int| q + 1 < b && !is_deleted(ops, q + 1),
    );
    lemma_tally_bound(ops.len() as int, |y: int| comes_before(ops, y, i));
    lemma_tally_bound(n, |q: int| q + 1 < b && !is_deleted(ops, q + 1));
}

/// What stands for a line that is not deleted stands behind every insertion for
/// its position or one before it, and behind every line before it that is not
/// deleted: it is the text of the last replacement of the line, or the line.
pub proof fn line_stands_in_its_place(lines: Seq<Seq<char>>, ops: Seq<Edit>, p: int)
    requires
        1 <= p <= lines.len(),
        !is_deleted(ops, p),
    ensures
        ({
            let all = weave(lines, ops, schedule(ops, true), 1);
            let at = insertions_up_to(ops, p) + lines_before(ops, lines.len() as int, p);
            &&& 0 <= at < all.len()
            &&& (forall|i: int|
                0 <= i < ops.len() ==> !(#[trigger] ops[i] matches Edit::Replace(m, _) && m == p))
                ==> all[at] == lines[p - 1]
            &&& forall|i: int|
                0 <= i < ops.len() && (#[trigger] ops[i] matches Edit::Replace(m, _) && m == p) && (
                forall|j: int|
                    i < j < ops.len() ==> !(#[trigger] ops[j] matches Edit::Replace(m, _) && m
                        == p)) ==> all[at] == ops[i]->Replace_1
        }),
{
    let n = lines.len() as int;
    let ins = schedule(ops, true);
    let all = weave(lines, ops, ins, 1);
    let rest = weave(lines, ops, ins, p);
    let at = insertions_up_to(ops, p) + lines_before(ops, n, p);
    lemma_from_gap(lines, ops, ins, p);
    lemma_gathered_len(ins, p, n);
    lemma_deleted(ops, p);
    lemma_tally_split(
        ins.len() as int,
        |x: int| 1 <= gap(ins[x], n) <= p,
        |x: int| 1 <= gap(ins[x], n) < p,
        |x: int| gap(ins[x], n) == p,
    );
    let near = |e: Edit| 1 <= e.line() <= p;
    lemma_count_scheduled(ops, near);
    lemma_tally_same(
        ins.len() as int,
        |x: int| 1 <= gap(ins[x], n) <= p,
        |x: int| near(ins[x]),
    );
    lemma_tally_same(
        ops.len() as int,
        |j: int| ops[j] matches Edit::Insert { base_pos, .. } && 1 <= base_pos <= p,
        |j: int| ops[j] is Insert && near(ops[j]),
    );
    let x = gathered(ins, p, n).len() as int;
    assert(rest[x] == kept(lines, ops, p)[0]);
    assert(all[offset(ops, ins, n, p) + x] == rest[x]);
    if forall|i: int|
        0 <= i < ops.len() ==> !(#[trigger] ops[i] matches Edit::Replace(m, _) && m == p) {
        lemma_no_replacement(ops, p);
    }
    assert forall|i: int|
        0 <= i < ops.len() && (#[trigger] ops[i] matches Edit::Replace(m, _) && m == p) && (forall|
            j: int,
        |
            i < j < ops.len() ==> !(#[trigger] ops[j] matches Edit::Replace(m, _) && m
                == p)) implies all[at] == ops[i]->Replace_1 by {
        lemma_last(ops, i, p);
    }
}

proof fn lemma_no_replacement(ops: Seq<Edit>, p: int)
    requires
        forall|i: int|
            0 <= i < ops.len() ==> !(#[trigger] ops[i] matches Edit::Replace(m, _) && m == p),
    ensures
        replacement(ops, p) is None,
    decreases ops.len(),
{
    if ops.len() > 0 {
        let front = ops.drop_last();
        assert(!(ops[ops.len() - 1] matches Edit::Replace(m, _) && m == p));
        assert forall|i: int| 0 <= i < front.len() implies !(#[trigger] front[i] matches
            Edit::Replace(m, _) && m == p) by {
            assert(front[i] == ops[i]);
        }
        lemma_no_replacement(front, p);
    }
}

proof fn lemma_last(ops: Seq<Edit>, i: int, p: int)
    requires
        0 <= i < ops.len(),
        ops[i] matches Edit::Replace(m, _) && m == p,
        forall|j: int|
            i < j < ops.len() ==> !(#[trigger] ops[j] matches Edit::Replace(m, _) && m == p),
    ensures
        replacement(ops, p) == Some(ops[i]->Replace_1),
    decreases ops.len(),
{
    if i < ops.len() - 1 {
        let front = ops.drop_last();
        assert(!(ops[ops.len() - 1] matches Edit::Replace(m, _) && m == p));
        assert forall|j: int| i < j < front.len() implies !(#[trigger] front[j] matches
            Edit::Replace(m, _) && m == p) by {
            assert(front[j] == ops[j]);
        }
        lemma_last(front, i, p);
    }
}

/// Nothing else stands in an edited file: it is as long as there are
/// insertions, and lines that are not deleted.
pub proof fn nothing_else_is_written(lines: Seq<Seq<char>>, ops: Seq<Edit>)
    ensures
        weave(lines, ops, schedule(ops, true), 1).len() == tally(
            ops.len() as int,
            |j: int| ops[j] matches Edit::Insert { base_pos, .. } && 1 <= base_pos,
        ) + tally(lines.len() as int, |q: int| !is_deleted(ops, q + 1)),
{
    let n = lines.len() as int;
    let ins = schedule(ops, true);
    lemma_from_gap(lines, ops, ins, n + 1);
    lemma_gathered_len(ins, n + 1, n);
    lemma_tally_split(
        ins.len() as int,
        |x: int| 1 <= gap(ins[x], n),
        |x: int| 1 <= gap(ins[x], n) < n + 1,
        |x: int| gap(ins[x], n) == n + 1,
    );
    let some = |e: Edit| 1 <= e.line();
    lemma_count_scheduled(ops, some);
    lemma_tally_same(ins.len() as int, |x: int| 1 <= gap(ins[x], n), |x: int| some(ins[x]));
    lemma_tally_same(
        ops.len() as int,
        |j: int| ops[j] matches Edit::Insert { base_pos, .. } && 1 <= base_pos,
        |j: int| ops[j] is Insert && some(ops[j]),
    );
    lemma_tally_same(
        n,
        |q: int| q + 1 < n + 1 && !is_deleted(ops, q + 1),
        |q: int| !is_deleted(ops, q + 1),
    );
}

} // verus!
