//! What holds of every diff that is read.

use vstd::prelude::*;

use crate::parse::{
    files_read, is_header_of, is_metadata, lemma_same_header, line_kind, plainly_read, read_on,
    reading, LineKind, Reading,
};
use crate::patterns::{is_file_header, without_colours};
use crate::text::{occurs_at, trimmed_end};

verus! {

/// A line that may stand on the old side of a diff.
pub open spec fn fit_for_base(text: Seq<char>) -> bool {
    !is_metadata(text) && !(text.len() > 0 && text[0] == '+')
}

/// A line that may stand on the new side of a diff.
pub open spec fn fit_for_head(text: Seq<char>) -> bool {
    !is_metadata(text) && !(text.len() > 0 && text[0] == '-')
}

/// Both sides of a diff hold only lines that may stand there.
pub open spec fn sides_fit(
    base: Seq<(usize, Seq<char>)>,
    head: Seq<(usize, Seq<char>)>,
) -> bool {
    &&& forall|i: int| 0 <= i < base.len() ==> fit_for_base((#[trigger] base[i]).1)
    &&& forall|i: int| 0 <= i < head.len() ==> fit_for_head((#[trigger] head[i]).1)
}

spec fn reading_fits(r: Reading) -> bool {
    &&& sides_fit(r.base, r.head)
    &&& forall|p: Seq<char>| #[trigger]
        r.files.contains_key(p) ==> sides_fit(r.files[p].0, r.files[p].1)
}

proof fn lemma_reading_fits(lines: Seq<Seq<char>>)
    ensures
        reading_fits(reading(lines)),
    decreases lines.len(),
{
    if lines.len() > 0 {
        let r = reading(lines.drop_last());
        let kind = line_kind(lines.last());
        lemma_reading_fits(lines.drop_last());
        let t = read_on(r, kind);
        assert forall|p: Seq<char>| #[trigger] t.files.contains_key(p) implies sides_fit(
            t.files[p].0,
            t.files[p].1,
        ) by {
            if r.files.contains_key(p) && !(p == r.current && kind is File) {
                assert(t.files[p] == r.files[p]);
            }
        }
        assert forall|i: int| 0 <= i < t.base.len() implies fit_for_base(
            (#[trigger] t.base[i]).1,
        ) by {
            if i < r.base.len() {
                assert(t.base[i] == r.base[i]);
            }
        }
        assert forall|i: int| 0 <= i < t.head.len() implies fit_for_head(
            (#[trigger] t.head[i]).1,
        ) by {
            if i < r.head.len() {
                assert(t.head[i] == r.head[i]);
            }
        }
    }
}

/// No metadata is taken for content, the old side of a diff holds no added
/// line, and the new side no removed one.
pub proof fn only_content_is_read(lines: Seq<Seq<char>>, path: Seq<char>)
    requires
        files_read(reading(lines)).contains_key(path),
    ensures
        sides_fit(files_read(reading(lines))[path].0, files_read(reading(lines))[path].1),
{
    lemma_reading_fits(lines);
    let r = reading(lines);
    if !(r.current.len() > 0 && path == r.current) {
        assert(r.files.contains_key(path));
    }
}

/// A note about a missing newline, and a line of metadata, leave no trace,
/// wherever they stand.
pub proof fn notes_leave_no_trace(before: Seq<Seq<char>>, line: Seq<char>, after: Seq<Seq<char>>)
    requires
        line_kind(line) is Marker || line_kind(line) is Metadata,
    ensures
        reading(before.push(line) + after) == reading(before + after),
    decreases after.len(),
{
    if after.len() == 0 {
        assert(before.push(line) + after =~= before.push(line));
        assert(before + after =~= before);
        assert(before.push(line).drop_last() =~= before);
    } else {
        notes_leave_no_trace(before, line, after.drop_last());
        assert((before.push(line) + after).drop_last() =~= before.push(line) + after.drop_last());
        assert((before + after).drop_last() =~= before + after.drop_last());
    }
}

/// The texts of the lines that do not begin with a mark.
pub open spec fn unmarked_texts(lines: Seq<(usize, Seq<char>)>, mark: char) -> Seq<Seq<char>>
    decreases lines.len(),
{
    if lines.len() == 0 {
        Seq::empty()
    } else {
        let rest = unmarked_texts(lines.drop_last(), mark);
        let text = lines.last().1;
        if text.len() > 0 && text[0] == mark {
            rest
        } else {
            rest.push(text)
        }
    }
}

/// Both sides agree on the lines that neither removes nor adds.
pub open spec fn sides_agree(
    base: Seq<(usize, Seq<char>)>,
    head: Seq<(usize, Seq<char>)>,
) -> bool {
    unmarked_texts(base, '-') == unmarked_texts(head, '+')
}

proof fn lemma_reading_agrees(lines: Seq<Seq<char>>)
    ensures
        sides_agree(reading(lines).base, reading(lines).head),
        forall|p: Seq<char>| #[trigger]
            reading(lines).files.contains_key(p) ==> sides_agree(
                reading(lines).files[p].0,
                reading(lines).files[p].1,
            ),
    decreases lines.len(),
{
    if lines.len() > 0 {
        let r = reading(lines.drop_last());
        let t = reading(lines);
        lemma_reading_agrees(lines.drop_last());
        match line_kind(lines.last()) {
            LineKind::Removed(text) => {
                assert(t.base.drop_last() =~= r.base);
            },
            LineKind::Added(text) => {
                assert(t.head.drop_last() =~= r.head);
            },
            LineKind::Context(text) => {
                assert(t.base.drop_last() =~= r.base);
                assert(t.head.drop_last() =~= r.head);
            },
            _ => {},
        }
        assert forall|p: Seq<char>| #[trigger] t.files.contains_key(p) implies sides_agree(
            t.files[p].0,
            t.files[p].1,
        ) by {
            if r.files.contains_key(p) && t.files[p] == r.files[p] {
                assert(sides_agree(r.files[p].0, r.files[p].1));
            }
        }
    }
}

/// Both sides of a file hold the same lines, but for those that were removed
/// and those that were added.
pub proof fn context_is_on_both_sides(lines: Seq<Seq<char>>, path: Seq<char>)
    requires
        files_read(reading(lines)).contains_key(path),
    ensures
        sides_agree(files_read(reading(lines))[path].0, files_read(reading(lines))[path].1),
{
    lemma_reading_agrees(lines);
    let r = reading(lines);
    if !(r.current.len() > 0 && path == r.current) {
        assert(r.files.contains_key(path));
    }
}

/// The first line, if there is one, is the header of a file.
pub open spec fn begins_with_header(lines: Seq<Seq<char>>) -> bool {
    lines.len() > 0 ==> line_kind(lines[0]) is File
}

/// No content waits for a file: there is a header, or no content.
pub open spec fn nothing_waits(lines: Seq<Seq<char>>) -> bool {
    let r = reading(lines);
    r.current.len() > 0 || r.base.len() == 0 && r.head.len() == 0
}

/// Two diffs, one after the other, give the files of both; where both have a
/// file, the second one counts.
pub proof fn diffs_add_up(a: Seq<Seq<char>>, b: Seq<Seq<char>>)
    requires
        nothing_waits(a),
        begins_with_header(b),
    ensures
        files_read(reading(a + b)) == files_read(reading(a)).union_prefer_right(
            files_read(reading(b)),
        ),
{
    if b.len() == 0 {
        assert(a + b =~= a);
        assert(files_read(reading(a)).union_prefer_right(files_read(reading(b))) =~= files_read(
            reading(a),
        ));
    } else {
        lemma_second_diff(a, b);
        let s = reading(b);
        assert(files_read(reading(a + b)) =~= files_read(reading(a)).union_prefer_right(
            files_read(s),
        ));
    }
}

proof fn lemma_second_diff(a: Seq<Seq<char>>, b: Seq<Seq<char>>)
    requires
        nothing_waits(a),
        b.len() > 0,
        begins_with_header(b),
    ensures
        reading(b).current.len() > 0,
        reading(a + b) == (Reading {
            files: files_read(reading(a)).union_prefer_right(reading(b).files),
            ..reading(b)
        }),
    decreases b.len(),
{
    let front = b.drop_last();
    let all = files_read(reading(a));
    let r = reading(a + b);
    let s = reading(b);
    assert((a + b).drop_last() =~= a + front);
    assert((a + b).last() == b.last());
    if front.len() == 0 {
        assert(a + front =~= a);
        assert(b.last() == b[0]);
        assert(s.files =~= Map::empty());
        assert(r.files =~= all.union_prefer_right(s.files));
        assert(r.base =~= s.base);
        assert(r.head =~= s.head);
    } else {
        assert(front[0] == b[0]);
        lemma_second_diff(a, front);
        assert(r.files =~= all.union_prefer_right(s.files));
    }
}

/// `line` is a header for `path`.
pub open spec fn opens_file(line: Seq<char>, path: Seq<char>) -> bool {
    line_kind(line) == LineKind::File(path)
}

/// The files of a diff are those that its headers name.
pub proof fn files_are_those_of_headers(lines: Seq<Seq<char>>, path: Seq<char>)
    ensures
        files_read(reading(lines)).contains_key(path) <==> exists|i: int|
            0 <= i < lines.len() && opens_file(#[trigger] lines[i], path),
    decreases lines.len(),
{
    if lines.len() > 0 {
        let front = lines.drop_last();
        files_are_those_of_headers(front, path);
        let r = reading(front);
        if exists|i: int| 0 <= i < front.len() && opens_file(#[trigger] front[i], path) {
            let i = choose|i: int| 0 <= i < front.len() && opens_file(#[trigger] front[i], path);
            assert(opens_file(lines[i], path));
        }
        if exists|i: int| 0 <= i < lines.len() && opens_file(#[trigger] lines[i], path) {
            let i = choose|i: int| 0 <= i < lines.len() && opens_file(#[trigger] lines[i], path);
            if i < front.len() {
                assert(opens_file(front[i], path));
            }
        }
        if opens_file(lines.last(), path) {
            assert(opens_file(lines[lines.len() - 1], path));
        }
    }
}

/// The reading after more lines, given what they say.
pub open spec fn read_all(r: Reading, kinds: Seq<LineKind>) -> Reading
    decreases kinds.len(),
{
    if kinds.len() == 0 {
        r
    } else {
        read_on(read_all(r, kinds.drop_last()), kinds.last())
    }
}

/// The lines of `after` are those of `before` and more, numbered on from `next`;
/// the one after them gets the number `now`.
pub open spec fn numbered_on(
    before: Seq<(usize, Seq<char>)>,
    next: nat,
    after: Seq<(usize, Seq<char>)>,
    now: nat,
) -> bool {
    &&& before.is_prefix_of(after)
    &&& now == next + (after.len() - before.len())
    &&& forall|i: int|
        before.len() <= i < after.len() ==> (#[trigger] after[i]).0 == next + (i - before.len())
}

/// Within a hunk the lines of either side are numbered one by one.
pub proof fn numbers_run_on(r: Reading, kinds: Seq<LineKind>)
    requires
        forall|i: int|
            0 <= i < kinds.len() ==> !((#[trigger] kinds[i]) is File) && !(kinds[i] is Hunk),
        read_all(r, kinds).next_base <= usize::MAX,
        read_all(r, kinds).next_head <= usize::MAX,
    ensures
        numbered_on(r.base, r.next_base, read_all(r, kinds).base, read_all(r, kinds).next_base),
        numbered_on(r.head, r.next_head, read_all(r, kinds).head, read_all(r, kinds).next_head),
    decreases kinds.len(),
{
    if kinds.len() == 0 {
        assert(r.base.is_prefix_of(r.base)) by {
            assert(r.base =~= r.base.subrange(0, r.base.len() as int));
        }
        assert(r.head =~= r.head.subrange(0, r.head.len() as int));
    } else {
        let front = kinds.drop_last();
        let kind = kinds.last();
        assert(kind == kinds[kinds.len() - 1]);
        assert forall|i: int| 0 <= i < front.len() implies !((#[trigger] front[i]) is File) && !(
        front[i] is Hunk) by {
            assert(front[i] == kinds[i]);
        }
        let m = read_all(r, front);
        let t = read_all(r, kinds);
        numbers_run_on(r, front);
        assert(r.base =~= t.base.subrange(0, r.base.len() as int)) by {
            assert(r.base == m.base.subrange(0, r.base.len() as int));
            assert forall|i: int| 0 <= i < r.base.len() implies r.base[i] == t.base[i] by {
                assert(m.base.subrange(0, r.base.len() as int)[i] == m.base[i]);
            }
        }
        assert(r.head =~= t.head.subrange(0, r.head.len() as int)) by {
            assert(r.head == m.head.subrange(0, r.head.len() as int));
            assert forall|i: int| 0 <= i < r.head.len() implies r.head[i] == t.head[i] by {
                assert(m.head.subrange(0, r.head.len() as int)[i] == m.head[i]);
            }
        }
        assert forall|i: int| r.base.len() <= i < t.base.len() implies (#[trigger] t.base[i]).0
            == r.next_base + (i - r.base.len()) by {
            if i < m.base.len() {
                assert(m.base[i].0 == r.next_base + (i - r.base.len()));
            }
        }
        assert forall|i: int| r.head.len() <= i < t.head.len() implies (#[trigger] t.head[i]).0
            == r.next_head + (i - r.head.len()) by {
            if i < m.head.len() {
                assert(m.head[i].0 == r.next_head + (i - r.head.len()));
            }
        }
    }
}

/// A text without the escape character has no colours to lose.
pub proof fn colourless_text_stays(s: Seq<char>)
    requires
        !s.contains('\x1b'),
    ensures
        without_colours(s) == s,
    decreases s.len(),
{
    if s.len() > 0 {
        let rest = s.skip(1);
        assert(s.contains(s[0]));
        assert(!rest.contains('\x1b')) by {
            if rest.contains('\x1b') {
                let i = choose|i: int| 0 <= i < rest.len() && rest[i] == '\x1b';
                assert(s[i + 1] == '\x1b');
            }
        }
        colourless_text_stays(rest);
        assert(seq![s[0]] + rest =~= s);
    } else {
        assert(s =~= Seq::<char>::empty());
    }
}

/// The line that git writes at the head of a file.
pub open spec fn header_line(old: Seq<char>, new: Seq<char>) -> Seq<char> {
    "diff --git a/"@ + old + " b/"@ + new
}

/// A name can be cut in two where the header of a file is: something follows
/// what stands before the new name there.
pub open spec fn can_be_cut(name: Seq<char>) -> bool {
    exists|i: int| occurs_at(name, " b/"@, i) && i + 3 < name.len()
}

proof fn lemma_header_is_longest(old: Seq<char>, new: Seq<char>)
    requires
        old.len() > 0 && !old.contains('\n'),
        new.len() > 0 && !new.contains('\n'),
        !can_be_cut(new),
    ensures
        is_header_of(header_line(old, new), old, new),
{
    reveal_strlit("diff --git a/");
    reveal_strlit(" b/");
    let line = header_line(old, new);
    let p = "diff --git a/"@;
    let q = " b/"@;
    let at: int = (p.len() + old.len()) as int;
    assert forall|c: Seq<char>, d: Seq<char>| #[trigger]
        is_file_header(line, c, d) implies c.len() <= old.len() by {
        if c.len() > old.len() {
            let other: int = (p.len() + c.len()) as int;
            assert(line == p + c + q + d);
            assert forall|j: int| 0 <= j < 3 implies #[trigger] q[j] == line[other + j] by {}
            assert(line[at] == q[0] && line[at + 1] == q[1] && line[at + 2] == q[2]);
            if other - at >= 3 {
                let k = other - at - 3;
                assert(line.len() == at + 3 + new.len());
                assert(line.len() == other + 3 + d.len());
                let front = p + old + q;
                assert(line =~= front + new);
                assert forall|j: int| 0 <= j < 3 implies #[trigger] new[k + j] == q[j] by {
                    assert((front + new)[front.len() + k + j] == new[k + j]);
                    assert(front.len() + k + j == other + j);
                }
                assert(new.subrange(k, k + 3) =~= q);
                assert(occurs_at(new, q, k) && k + 3 < new.len());
            } else {
                assert(line[other] == q[0]);
            }
        }
    }
}

/// The first character stays, unless a colour sequence begins there.
proof fn lemma_first_char(s: Seq<char>)
    requires
        s.len() > 0,
        s[0] != '\x1b',
    ensures
        without_colours(s).len() > 0,
        without_colours(s)[0] == s[0],
{
}

/// The header of a file names the new file, unless that name can be cut.
pub proof fn header_names_the_new_file(raw: Seq<char>, old: Seq<char>, new: Seq<char>)
    requires
        without_colours(trimmed_end(raw)) == header_line(old, new),
        old.len() > 0 && !old.contains('\n'),
        new.len() > 0 && !new.contains('\n'),
        !can_be_cut(new),
    ensures
        line_kind(raw) == LineKind::File(new),
{
    reveal_strlit("diff --git a/");
    reveal_strlit("\\ ");
    let line = header_line(old, new);
    lemma_header_is_longest(old, new);
    lemma_no_marker(trimmed_end(raw), line[0]);
    let (a, b) = choose|a: Seq<char>, b: Seq<char>| is_header_of(line, a, b);
    assert(is_header_of(line, a, b));
    lemma_same_header(line, a, b, old, new);
}

proof fn lemma_no_marker(s: Seq<char>, first: char)
    requires
        without_colours(s).len() > 0,
        without_colours(s)[0] == first,
        first != '\\',
    ensures
        !"\\ "@.is_prefix_of(s),
{
    reveal_strlit("\\ ");
    if "\\ "@.is_prefix_of(s) {
        assert(s.subrange(0, 2)[0] == s[0]);
        lemma_first_char(s);
    }
}

/// A line that begins, without its colours, with a space, a minus or a plus
/// sign, and is no metadata, stands for a line of both versions, of the old or
/// of the new one.
pub proof fn content_is_told_by_its_mark(raw: Seq<char>)
    requires
        plainly_read(raw),
        without_colours(trimmed_end(raw)).len() > 0,
        !is_metadata(without_colours(trimmed_end(raw))),
    ensures
        ({
            let line = without_colours(trimmed_end(raw));
            &&& line[0] == ' ' ==> line_kind(raw) == LineKind::Context(line)
            &&& line[0] == '-' ==> line_kind(raw) == LineKind::Removed(line)
            &&& line[0] == '+' ==> line_kind(raw) == LineKind::Added(line)
        }),
{
    reveal_strlit("diff --git a/");
    reveal_strlit("@@ -");
    let line = without_colours(trimmed_end(raw));
    if line[0] == ' ' || line[0] == '-' || line[0] == '+' {
        lemma_no_marker(trimmed_end(raw), line[0]);
        assert(!"@@ -"@.is_prefix_of(line)) by {
            if "@@ -"@.is_prefix_of(line) {
                assert(line.subrange(0, 4)[0] == line[0]);
            }
        }
        assert forall|a: Seq<char>, b: Seq<char>| !is_header_of(line, a, b) by {
            if is_header_of(line, a, b) {
                assert(line[0] == "diff --git a/"@[0]);
            }
        }
    }
}

} // verus!
