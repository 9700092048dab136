//! Line edits against a base file, and how a set of them is applied.

use vstd::prelude::*;

use crate::text::{lemma_texts_push, texts};

verus! {

/// One edit of a file, in the line numbers of the unedited file.
pub enum ChangeOp {
    /// Replace line at the given 1-indexed base position with new content
    Replace(usize, String),
    /// Delete line at the given 1-indexed base position
    Delete(usize),
    /// Insert content at the given 1-indexed base position.
    /// `order` is the original head line number, used to keep multiple
    /// insertions at the same base position in the correct order.
    Insert { base_pos: usize, order: usize, content: String },
}

/// The mathematical reading of a [`ChangeOp`].
pub enum Edit {
    Replace(usize, Seq<char>),
    Delete(usize),
    Insert { base_pos: usize, order: usize, content: Seq<char> },
}

impl View for ChangeOp {
    type V = Edit;

    open spec fn view(&self) -> Edit {
        match *self {
            ChangeOp::Replace(n, content) => Edit::Replace(n, content@),
            ChangeOp::Delete(n) => Edit::Delete(n),
            ChangeOp::Insert { base_pos, order, content } => Edit::Insert {
                base_pos,
                order,
                content: content@,
            },
        }
    }
}

impl Clone for ChangeOp {
    fn clone(&self) -> (r: Self)
        ensures
            r@ == self@,
    {
        match self {
            ChangeOp::Replace(n, content) => ChangeOp::Replace(*n, content.clone()),
            ChangeOp::Delete(n) => ChangeOp::Delete(*n),
            ChangeOp::Insert { base_pos, order, content } => ChangeOp::Insert {
                base_pos: *base_pos,
                order: *order,
                content: content.clone(),
            },
        }
    }
}

impl Edit {
    /// The base position that an edit speaks of.
    pub open spec fn line(self) -> int {
        match self {
            Edit::Replace(n, _) => n as int,
            Edit::Delete(n) => n as int,
            Edit::Insert { base_pos, .. } => base_pos as int,
        }
    }

    /// The tie-break between insertions at one position; replacements and
    /// deletions have none.
    pub open spec fn rank(self) -> int {
        match self {
            Edit::Insert { order, .. } => order as int,
            _ => 0,
        }
    }

    /// The new text that an edit brings, if any.
    pub open spec fn text(self) -> Seq<char> {
        match self {
            Edit::Replace(_, content) => content,
            Edit::Delete(_) => Seq::empty(),
            Edit::Insert { content, .. } => content,
        }
    }

    /// `self` is carried out strictly before `other`: it lies further down,
    /// or at the same position with a higher order.
    pub open spec fn outranks(self, other: Edit) -> bool {
        self.line() > other.line() || (self.line() == other.line() && self.rank() > other.rank())
    }
}

impl ChangeOp {
    /// The base position of the edit.
    pub fn line_num(&self) -> (n: usize)
        ensures
            n == self@.line(),
    {
        match self {
            ChangeOp::Replace(n, _) => *n,
            ChangeOp::Delete(n) => *n,
            ChangeOp::Insert { base_pos, .. } => *base_pos,
        }
    }

    fn rank(&self) -> (n: usize)
        ensures
            n == self@.rank(),
    {
        match self {
            ChangeOp::Insert { order, .. } => *order,
            _ => 0,
        }
    }

    fn is_insert(&self) -> (b: bool)
        ensures
            b == (self@ is Insert),
    {
        match self {
            ChangeOp::Insert { .. } => true,
            _ => false,
        }
    }

    fn outranks(&self, other: &ChangeOp) -> (b: bool)
        ensures
            b == self@.outranks(other@),
    {
        let a: usize = self.line_num();
        let b: usize = other.line_num();
        a > b || (a == b && self.rank() > other.rank())
    }
}

/// The edits that a list of operations stands for.
pub open spec fn edits(ops: Seq<ChangeOp>) -> Seq<Edit> {
    Seq::new(ops.len(), |i: int| ops[i]@)
}

/// `op` added to a schedule: behind every edit that it does not outrank.
pub open spec fn place(schedule: Seq<Edit>, op: Edit) -> Seq<Edit>
    decreases schedule.len(),
{
    if schedule.len() == 0 || !op.outranks(schedule.last()) {
        schedule.push(op)
    } else {
        place(schedule.drop_last(), op).push(schedule.last())
    }
}

/// The insertions among `ops` (or, with `inserts` false, the replacements
/// and deletions), highest position first. Edits that do not outrank each
/// other keep the order in which they were given.
pub open spec fn schedule(ops: Seq<Edit>, inserts: bool) -> Seq<Edit>
    decreases ops.len(),
{
    if ops.len() == 0 {
        Seq::empty()
    } else {
        let rest = schedule(ops.drop_last(), inserts);
        if (ops.last() is Insert) == inserts {
            place(rest, ops.last())
        } else {
            rest
        }
    }
}

/// Whether `ops` delete line `p`.
pub open spec fn deletes(ops: Seq<Edit>, p: int) -> bool {
    exists|i: int| 0 <= i < ops.len() && (#[trigger] ops[i]) is Delete && ops[i].line() == p
}

/// The text that `ops` put in the place of line `p`, if they replace it: that
/// of the last replacement given.
pub open spec fn replacement(ops: Seq<Edit>, p: int) -> Option<Seq<char>>
    decreases ops.len(),
{
    if ops.len() == 0 {
        None
    } else if ops.last() is Replace && ops.last().line() == p {
        Some(ops.last().text())
    } else {
        replacement(ops.drop_last(), p)
    }
}

/// What stands for line `p` afterwards: nothing if it is deleted, whatever
/// else is done to it; its replacement, if it has one; or the line itself.
pub open spec fn kept(lines: Seq<Seq<char>>, ops: Seq<Edit>, p: int) -> Seq<Seq<char>> {
    if deletes(ops, p) {
        Seq::empty()
    } else {
        match replacement(ops, p) {
            Some(content) => seq![content],
            None => seq![lines[p - 1]],
        }
    }
}

/// The gap that an insertion fills in a file of `n` lines: before line
/// `base_pos`, or, for every position past the end, behind the last line.
/// Position 0 is none.
pub open spec fn gap(op: Edit, n: int) -> int {
    if op.line() > n + 1 {
        n + 1
    } else {
        op.line()
    }
}

/// The texts that a schedule of insertions puts into gap `p`: what comes
/// later in the schedule stands further up.
pub open spec fn gathered(ins: Seq<Edit>, p: int, n: int) -> Seq<Seq<char>>
    decreases ins.len(),
{
    if ins.len() == 0 {
        Seq::empty()
    } else {
        let rest = gathered(ins.drop_last(), p, n);
        if gap(ins.last(), n) == p {
            seq![ins.last().text()] + rest
        } else {
            rest
        }
    }
}

/// The edited file from gap `p` on: for every line in order, the insertions
/// before it, and then what stands for it; at last the insertions behind the
/// last line.
pub open spec fn weave(lines: Seq<Seq<char>>, ops: Seq<Edit>, ins: Seq<Edit>, p: int) -> Seq<
    Seq<char>,
>
    decreases lines.len() + 1 - p,
{
    let n = lines.len() as int;
    if p > n {
        gathered(ins, n + 1, n)
    } else {
        gathered(ins, p, n) + kept(lines, ops, p) + weave(lines, ops, ins, p + 1)
    }
}

/// The edits that a list of borrowed operations stands for.
spec fn ref_edits(ops: Seq<&ChangeOp>) -> Seq<Edit> {
    Seq::new(ops.len(), |i: int| ops[i]@)
}

proof fn lemma_place_is_insert(s: Seq<Edit>, op: Edit, p: int)
    requires
        0 <= p <= s.len(),
        p == 0 || !op.outranks(s[p - 1]),
        forall|i: int| p <= i < s.len() ==> op.outranks(#[trigger] s[i]),
    ensures
        place(s, op) == s.insert(p, op),
    decreases s.len(),
{
    if p == s.len() {
        assert(s.insert(p, op) =~= s.push(op));
    } else {
        assert(op.outranks(s[s.len() - 1]));
        lemma_place_is_insert(s.drop_last(), op, p);
        assert(s.insert(p, op) =~= s.drop_last().insert(p, op).push(s.last()));
    }
}

/// Sorts the operations of one kind into the order in which they are
/// carried out.
fn ordered<'a>(operations: &'a [ChangeOp], inserts: bool) -> (r: Vec<&'a ChangeOp>)
    ensures
        ref_edits(r@) == schedule(edits(operations@), inserts),
        forall|i: int| 0 <= i < r@.len() ==> ((#[trigger] r@[i])@ is Insert) == inserts,
{
    let mut r: Vec<&'a ChangeOp> = Vec::new();
    let mut k: usize = 0;
    while k < operations.len()
        invariant
            k <= operations@.len(),
            ref_edits(r@) == schedule(edits(operations@).take(k as int), inserts),
            forall|i: int| 0 <= i < r@.len() ==> ((#[trigger] r@[i])@ is Insert) == inserts,
        decreases operations@.len() - k,
    {
        let op: &'a ChangeOp = &operations[k];
        proof {
            let all = edits(operations@);
            assert(all.take(k + 1).drop_last() =~= all.take(k as int));
            assert(all.take(k + 1).last() == op@);
        }
        if op.is_insert() == inserts {
            let mut p: usize = r.len();
            while p > 0 && op.outranks(r[p - 1])
                invariant
                    p <= r@.len(),
                    forall|i: int| p <= i < r@.len() ==> op@.outranks(#[trigger] ref_edits(r@)[i]),
                decreases p,
            {
                p = p - 1;
            }
            let ghost before = ref_edits(r@);
            proof {
                lemma_place_is_insert(before, op@, p as int);
            }
            r.insert(p, op);
            assert(ref_edits(r@) =~= before.insert(p as int, op@));
        }
        k = k + 1;
    }
    assert(edits(operations@).take(k as int) =~= edits(operations@));
    r
}

/// A schedule runs from the highest position to the lowest.
pub open spec fn descending(ops: Seq<Edit>) -> bool {
    forall|i: int, j: int| 0 <= i < j < ops.len() ==> !(#[trigger] ops[j]).outranks(
        #[trigger] ops[i],
    )
}

proof fn lemma_place_descending(s: Seq<Edit>, op: Edit)
    requires
        descending(s),
    ensures
        descending(place(s, op)),
        place(s, op).len() == s.len() + 1,
        forall|e: Edit| #[trigger] place(s, op).contains(e) ==> e == op || s.contains(e),
        place(s, op).to_multiset() == s.to_multiset().insert(op),
    decreases s.len(),
{
    broadcast use vstd::seq_lib::group_to_multiset_ensures;

    if s.len() == 0 || !op.outranks(s.last()) {
        let t = s.push(op);
        assert forall|i: int, j: int| 0 <= i < j < t.len() implies !(#[trigger] t[j]).outranks(
            #[trigger] t[i],
        ) by {
            if j == s.len() {
                let last = s[s.len() - 1];
                assert(i == s.len() - 1 || !last.outranks(s[i]));
            }
        }
        assert forall|e: Edit| #[trigger] t.contains(e) implies e == op || s.contains(e) by {
            let i = choose|i: int| 0 <= i < t.len() && t[i] == e;
            if i < s.len() {
                assert(s[i] == e);
            }
        }
    } else {
        let rest = place(s.drop_last(), op);
        let last = s.last();
        lemma_place_descending(s.drop_last(), op);
        let t = rest.push(last);
        assert forall|i: int, j: int| 0 <= i < j < t.len() implies !(#[trigger] t[j]).outranks(
            #[trigger] t[i],
        ) by {
            if j == rest.len() {
                assert(rest.contains(rest[i]));
                if rest[i] != op {
                    let k = choose|k: int| 0 <= k < s.drop_last().len() && s.drop_last()[k] == rest[i];
                    assert(s[k] == rest[i]);
                    assert(!s[s.len() - 1].outranks(s[k]));
                }
            }
        }
        assert forall|e: Edit| #[trigger] t.contains(e) implies e == op || s.contains(e) by {
            let i = choose|i: int| 0 <= i < t.len() && t[i] == e;
            if i < rest.len() {
                assert(rest.contains(e));
                if e != op {
                    let k = choose|k: int| 0 <= k < s.drop_last().len() && s.drop_last()[k] == e;
                    assert(s[k] == e);
                }
            } else {
                assert(s[s.len() - 1] == e);
            }
        }
        assert(s =~= s.drop_last().push(last));
        assert(t.to_multiset() =~= s.to_multiset().insert(op));
    }
}

/// A schedule never puts an edit behind one that it outranks.
pub proof fn schedule_is_descending(ops: Seq<Edit>, inserts: bool)
    ensures
        descending(schedule(ops, inserts)),
    decreases ops.len(),
{
    if ops.len() > 0 {
        schedule_is_descending(ops.drop_last(), inserts);
        if (ops.last() is Insert) == inserts {
            lemma_place_descending(schedule(ops.drop_last(), inserts), ops.last());
        }
    }
}

/// A schedule holds exactly the edits of its kind, each as often as it was
/// given.
pub proof fn schedule_keeps_edits(ops: Seq<Edit>, inserts: bool)
    ensures
        schedule(ops, inserts).to_multiset() == ops.filter(
            |op: Edit| (op is Insert) == inserts,
        ).to_multiset(),
    decreases ops.len(),
{
    broadcast use vstd::seq_lib::group_to_multiset_ensures;

    let kind = |op: Edit| (op is Insert) == inserts;
    reveal(Seq::filter);
    if ops.len() > 0 {
        schedule_keeps_edits(ops.drop_last(), inserts);
        schedule_is_descending(ops.drop_last(), inserts);
        if kind(ops.last()) {
            lemma_place_descending(schedule(ops.drop_last(), inserts), ops.last());
        }
    }
}

proof fn lemma_deletes_push(s: Seq<Edit>, op: Edit, p: int)
    ensures
        deletes(s.push(op), p) == (deletes(s, p) || (op is Delete && op.line() == p)),
{
    let t = s.push(op);
    assert(t[s.len() as int] == op);
    if deletes(s, p) {
        let i = choose|i: int| 0 <= i < s.len() && (#[trigger] s[i]) is Delete && s[i].line() == p;
        assert(t[i] == s[i]);
    }
    if deletes(t, p) {
        let i = choose|i: int| 0 <= i < t.len() && (#[trigger] t[i]) is Delete && t[i].line() == p;
        assert(i < s.len() ==> s[i] == t[i]);
    }
}

proof fn lemma_place_edit(s: Seq<Edit>, op: Edit, p: int)
    requires
        !(op is Insert),
        forall|i: int| 0 <= i < s.len() ==> !((#[trigger] s[i]) is Insert),
    ensures
        replacement(place(s, op), p) == replacement(s.push(op), p),
        deletes(place(s, op), p) == deletes(s.push(op), p),
        forall|i: int| 0 <= i < place(s, op).len() ==> !((#[trigger] place(s, op)[i]) is Insert),
    decreases s.len(),
{
    assert(s.push(op).drop_last() =~= s);
    if s.len() > 0 && op.outranks(s.last()) {
        let front = s.drop_last();
        let last = s[s.len() - 1];
        let rest = place(front, op);
        assert(!(last is Insert));
        assert forall|i: int| 0 <= i < front.len() implies !((#[trigger] front[i]) is Insert) by {
            assert(front[i] == s[i]);
        }
        lemma_place_edit(front, op, p);
        assert(front.push(op).drop_last() =~= front);
        assert(place(s, op).drop_last() =~= rest);
        reveal_with_fuel(replacement, 3);
        assert(s =~= front.push(last));
        lemma_deletes_push(front, last, p);
        lemma_deletes_push(s, op, p);
        lemma_deletes_push(front, op, p);
        lemma_deletes_push(rest, last, p);
    }
}

/// The schedule of replacements and deletions says of each line what the edits
/// say of it.
proof fn lemma_schedule_edit(ops: Seq<Edit>, p: int)
    ensures
        replacement(schedule(ops, false), p) == replacement(ops, p),
        deletes(schedule(ops, false), p) == deletes(ops, p),
        forall|i: int|
            0 <= i < schedule(ops, false).len() ==> !((#[trigger] schedule(ops, false)[i]) is Insert),
    decreases ops.len(),
{
    if ops.len() > 0 {
        let rest = schedule(ops.drop_last(), false);
        lemma_schedule_edit(ops.drop_last(), p);
        assert(ops =~= ops.drop_last().push(ops.last()));
        lemma_deletes_push(ops.drop_last(), ops.last(), p);
        if !(ops.last() is Insert) {
            lemma_place_edit(rest, ops.last(), p);
            lemma_deletes_push(rest, ops.last(), p);
            assert(rest.push(ops.last()).drop_last() =~= rest);
        }
    }
}

/// Only the edits of a line say anything of it.
proof fn lemma_edits_of_line(ops: Seq<Edit>, q: int, k: int, p: int)
    requires
        0 <= q <= k <= ops.len(),
        forall|i: int| 0 <= i < ops.len() && (#[trigger] ops[i]).line() == p ==> q <= i < k,
    ensures
        replacement(ops.subrange(q, k), p) == replacement(ops, p),
        deletes(ops.subrange(q, k), p) == deletes(ops, p),
    decreases ops.len(),
{
    let part = ops.subrange(q, k);
    if ops.len() == 0 {
        assert(part =~= ops);
    } else {
        let front = ops.drop_last();
        let last = ops[ops.len() - 1];
        assert forall|i: int| 0 <= i < front.len() && (#[trigger] front[i]).line() == p implies q
            <= i < k by {
            assert(front[i] == ops[i]);
        }
        assert(ops =~= front.push(last));
        lemma_deletes_push(front, last, p);
        if k < ops.len() {
            lemma_edits_of_line(front, q, k, p);
            assert(front.subrange(q, k) =~= part);
        } else if q < k {
            lemma_edits_of_line(front, q, k - 1, p);
            assert(part.drop_last() =~= front.subrange(q, k - 1));
            assert(part =~= front.subrange(q, k - 1).push(last));
            lemma_deletes_push(front.subrange(q, k - 1), last, p);
        } else {
            lemma_edits_of_line(front, q - 1, k - 1, p);
            assert(front.subrange(q - 1, k - 1) =~= part);
        }
    }
}

/// What stands for a line afterwards, by `ops[q..k]`, the edits of it.
fn stand_in(line: &String, ops: &Vec<&ChangeOp>, q: usize, k: usize, p: usize) -> (r: Option<
    String,
>)
    requires
        q <= k <= ops@.len(),
        forall|i: int| q <= i < k ==> (#[trigger] ref_edits(ops@)[i]).line() == p,
    ensures
        r is None <==> deletes(ref_edits(ops@).subrange(q as int, k as int), p as int),
        r is Some ==> r->0@ == match replacement(
            ref_edits(ops@).subrange(q as int, k as int),
            p as int,
        ) {
            Some(content) => content,
            None => line@,
        },
{
    let ghost all = ref_edits(ops@);
    let mut text: &String = line;
    let mut x: usize = q;
    assert(all.subrange(q as int, q as int) =~= Seq::<Edit>::empty());
    while x < k
        invariant
            q <= x <= k <= ops@.len(),
            all == ref_edits(ops@),
            forall|i: int| q <= i < k ==> (#[trigger] all[i]).line() == p,
            !deletes(all.subrange(q as int, x as int), p as int),
            text@ == match replacement(all.subrange(q as int, x as int), p as int) {
                Some(content) => content,
                None => line@,
            },
        decreases k - x,
    {
        let op: &ChangeOp = ops[x];
        proof {
            let part = all.subrange(q as int, x as int);
            let next = all.subrange(q as int, x + 1);
            assert(all[x as int] == op@);
            assert(next =~= part.push(op@));
            assert(next.drop_last() =~= part);
            lemma_deletes_push(part, op@, p as int);
        }
        match op {
            ChangeOp::Delete(_) => {
                proof {
                    let rest = all.subrange(q as int, k as int);
                    assert(rest[x - q] == op@);
                }
                return None;
            },
            ChangeOp::Replace(_, content) => {
                text = content;
            },
            ChangeOp::Insert { .. } => {},
        }
        x = x + 1;
    }
    Some(text.clone())
}

/// The texts of `ins[r..j]`, the last one first.
pub open spec fn turned(ins: Seq<Edit>, r: int, j: int) -> Seq<Seq<char>> {
    Seq::new((j - r) as nat, |i: int| ins[j - 1 - i].text())
}

/// Where `ins[r..j]` are the insertions for a gap, they are what is gathered.
pub proof fn lemma_gathered_is(ins: Seq<Edit>, r: int, j: int, p: int, n: int)
    requires
        0 <= r <= j <= ins.len(),
        forall|i: int|
            0 <= i < ins.len() ==> (gap(#[trigger] ins[i], n) == p <==> r <= i < j),
    ensures
        gathered(ins, p, n) == turned(ins, r, j),
    decreases ins.len(),
{
    if ins.len() > 0 {
        let front = ins.drop_last();
        let last = ins[ins.len() - 1];
        assert(gap(last, n) == p <==> r <= ins.len() - 1 < j);
        let k = if j == ins.len() && r < j {
            j - 1
        } else {
            j
        };
        if r <= k <= front.len() {
            assert forall|i: int| 0 <= i < front.len() implies (gap(#[trigger] front[i], n) == p
                <==> r <= i < k) by {
                assert(front[i] == ins[i]);
            }
            lemma_gathered_is(front, r, k, p, n);
            if k < j {
                assert(seq![last.text()] + turned(front, r, k) =~= turned(ins, r, j));
            } else {
                assert(turned(front, r, k) =~= turned(ins, r, j));
            }
        } else {
            assert(r == j == ins.len());
            assert forall|i: int| 0 <= i < front.len() implies (gap(#[trigger] front[i], n) == p
                <==> r - 1 <= i < r - 1) by {
                assert(front[i] == ins[i]);
            }
            lemma_gathered_is(front, r - 1, r - 1, p, n);
            assert(turned(front, r - 1, r - 1) =~= turned(ins, r, j));
        }
    } else {
        assert(turned(ins, r, j) =~= Seq::<Seq<char>>::empty());
    }
}

/// Where the edits of lines up to `line` end, looking back from `k`.
fn pass(ops: &Vec<&ChangeOp>, k: usize, line: usize) -> (r: usize)
    requires
        k <= ops@.len(),
    ensures
        r <= k,
        forall|i: int| r <= i < k ==> (#[trigger] ref_edits(ops@)[i]).line() <= line,
        r > 0 ==> ref_edits(ops@)[r - 1].line() > line,
{
    let mut r: usize = k;
    while r > 0 && ops[r - 1].line_num() <= line
        invariant
            r <= k <= ops@.len(),
            forall|i: int| r <= i < k ==> (#[trigger] ref_edits(ops@)[i]).line() <= line,
        decreases r,
    {
        r = r - 1;
    }
    r
}

/// Appends the texts of `ins[r..j]`, the last one first.
fn append_turned(out: &mut Vec<String>, ins: &Vec<&ChangeOp>, r: usize, j: usize)
    requires
        r <= j <= ins@.len(),
        forall|i: int| 0 <= i < ins@.len() ==> (#[trigger] ins@[i])@ is Insert,
    ensures
        texts(final(out)@) == texts(old(out)@) + turned(ref_edits(ins@), r as int, j as int),
{
    let ghost start = texts(out@);
    let ghost all = ref_edits(ins@);
    let mut k: usize = j;
    assert(turned(all, j as int, j as int) =~= Seq::<Seq<char>>::empty());
    assert(start + Seq::<Seq<char>>::empty() =~= start);
    while k > r
        invariant
            r <= k <= j <= ins@.len(),
            all == ref_edits(ins@),
            forall|i: int| 0 <= i < ins@.len() ==> (#[trigger] ins@[i])@ is Insert,
            texts(out@) == start + turned(all, k as int, j as int),
        decreases k,
    {
        k = k - 1;
        let op: &ChangeOp = ins[k];
        assert(all[k as int] == op@ && ins@[k as int]@ is Insert);
        if let ChangeOp::Insert { content, .. } = op {
            let text: String = content.clone();
            proof {
                lemma_texts_push(out@, text);
                assert(turned(all, k as int, j as int) =~= turned(all, k + 1, j as int).push(
                    text@,
                ));
                assert((start + turned(all, k + 1, j as int)).push(text@) =~= start + turned(
                    all,
                    k as int,
                    j as int,
                ));
            }
            out.push(text);
        }
    }
}

/// Apply change operations to file content lines and return the result. A
/// deletion of a line counts whatever else is done to it; of several
/// replacements the last one given.
pub fn apply_operations(lines: &[String], operations: &[ChangeOp]) -> (r: Vec<String>)
    ensures
        texts(r@) == weave(
            texts(lines@),
            edits(operations@),
            schedule(edits(operations@), true),
            1,
        ),
{
    let n: usize = lines.len();
    let base_ops: Vec<&ChangeOp> = ordered(operations, false);
    let insert_ops: Vec<&ChangeOp> = ordered(operations, true);
    let ghost ls = texts(lines@);
    let ghost all = edits(operations@);
    let ghost base = ref_edits(base_ops@);
    let ghost ins = ref_edits(insert_ops@);
    proof {
        schedule_is_descending(all, false);
        schedule_is_descending(all, true);
    }
    // Both lists run from the bottom of the file to its top, so they are read
    // from their ends; position 0 is no line.
    let mut k: usize = pass(&base_ops, base_ops.len(), 0);
    let mut j: usize = pass(&insert_ops, insert_ops.len(), 0);
    let mut out: Vec<String> = Vec::new();
    let mut i: usize = 0;
    assert(texts(out@) + weave(ls, all, ins, 1) =~= weave(ls, all, ins, 1));
    while i < n
        invariant
            i <= n == lines@.len(),
            ls == texts(lines@),
            all == edits(operations@),
            base == ref_edits(base_ops@),
            base == schedule(all, false),
            ins == ref_edits(insert_ops@),
            ins == schedule(all, true),
            descending(base),
            descending(ins),
            forall|x: int| 0 <= x < insert_ops@.len() ==> (#[trigger] insert_ops@[x])@ is Insert,
            k <= base.len(),
            forall|x: int| k <= x < base.len() ==> (#[trigger] base[x]).line() <= i,
            k > 0 ==> base[k - 1].line() > i,
            j <= ins.len(),
            forall|x: int| j <= x < ins.len() ==> (#[trigger] ins[x]).line() <= i,
            j > 0 ==> ins[j - 1].line() > i,
            texts(out@) + weave(ls, all, ins, i + 1) == weave(ls, all, ins, 1),
        decreases n - i,
    {
        let p: usize = i + 1;
        let ghost before = texts(out@);

        // The insertions before the line
        let r: usize = pass(&insert_ops, j, p);
        append_turned(&mut out, &insert_ops, r, j);
        proof {
            assert forall|x: int| 0 <= x < ins.len() implies (gap(#[trigger] ins[x], n as int) == p
                <==> r <= x < j) by {
                if x < r - 1 {
                    assert(!ins[r - 1].outranks(ins[x]));
                }
                if x < j - 1 {
                    assert(!ins[j - 1].outranks(ins[x]));
                }
            }
            lemma_gathered_is(ins, r as int, j as int, p as int, n as int);
        }
        j = r;

        // The line
        let q: usize = pass(&base_ops, k, p);
        proof {
            assert forall|x: int| 0 <= x < base.len() implies ((#[trigger] base[x]).line() == p
                <==> q <= x < k) by {
                if x < q - 1 {
                    assert(!base[q - 1].outranks(base[x]));
                }
                if x < k - 1 {
                    assert(!base[k - 1].outranks(base[x]));
                }
            }
            lemma_schedule_edit(all, p as int);
            lemma_edits_of_line(base, q as int, k as int, p as int);
        }
        let ghost middle = texts(out@);
        match stand_in(&lines[i], &base_ops, q, k, p) {
            Some(line) => {
                proof {
                    lemma_texts_push(out@, line);
                    assert(middle.push(line@) =~= middle + seq![line@]);
                }
                out.push(line);
            },
            None => {
                assert(middle + Seq::<Seq<char>>::empty() =~= middle);
            },
        }
        k = q;
        proof {
            let g = gathered(ins, p as int, n as int);
            let x = kept(ls, all, p as int);
            let w = weave(ls, all, ins, p + 1);
            assert(texts(out@) == before + g + x);
            assert(before + g + x + w =~= before + (g + x + w));
        }
        i = i + 1;
    }

    // The insertions behind the last line
    append_turned(&mut out, &insert_ops, 0, j);
    proof {
        assert forall|x: int| 0 <= x < ins.len() implies (gap(#[trigger] ins[x], n as int) == n + 1
            <==> 0 <= x < j) by {
            if x < j - 1 {
                assert(!ins[j - 1].outranks(ins[x]));
            }
        }
        lemma_gathered_is(ins, 0, j as int, n + 1, n as int);
    }
    out
}

} // verus!
