//! What every line of a diff does to what is read of it.

use vstd::prelude::*;
use vstd::utf8::is_ascii_chars;

use crate::parse::{
    all_sides, countable, files_read, hunk_number, in_range, is_header_of, kind_of,
    lemma_same_header, line_kind, numbered, plainly_read, reading, sides, FileDiff, LineKind,
    Reading,
};
use crate::patterns::{is_file_header, is_hunk_header, without_colours};
use crate::positions::tally;
use crate::text::{digits_value, first_index, lemma_first_index, number_of, trimmed_end};

verus! {

/// A line of a diff as it is looked at: without the white space at its end and
/// without colours.
pub open spec fn plain(raw: Seq<char>) -> Seq<char> {
    without_colours(trimmed_end(raw))
}

/// A line begins with one of the texts that git puts around the content of a
/// file.
pub open spec fn begins_with_note(line: Seq<char>) -> bool {
    let notes = seq![
        "index"@,
        "---"@,
        "+++"@,
        "@@"@,
        "new file mode"@,
        "new mode"@,
        "old mode"@,
        "deleted file mode"@,
        "rename from"@,
        "rename to"@,
        "copy from"@,
        "copy to"@,
        "similarity index"@,
        "dissimilarity index"@,
        "Binary files"@,
    ];
    exists|i: int| 0 <= i < notes.len() && (#[trigger] notes[i]).is_prefix_of(line)
}

/// A line that belongs to the content of a file.
pub open spec fn is_content(line: Seq<char>) -> bool {
    ||| " "@.is_prefix_of(line)
    ||| "-"@.is_prefix_of(line) && !"---"@.is_prefix_of(line)
    ||| "+"@.is_prefix_of(line) && !"+++"@.is_prefix_of(line)
}

proof fn lemma_prefix(p: Seq<char>, s: Seq<char>)
    ensures
        p.is_prefix_of(s) <==> p.len() <= s.len() && forall|i: int|
            0 <= i < p.len() ==> #[trigger] p[i] == s[i],
{
    if p.is_prefix_of(s) {
        assert forall|i: int| 0 <= i < p.len() implies #[trigger] p[i] == s[i] by {
            assert(s.subrange(0, p.len() as int)[i] == s[i]);
        }
    }
    if p.len() <= s.len() && forall|i: int| 0 <= i < p.len() ==> #[trigger] p[i] == s[i] {
        assert(p =~= s.subrange(0, p.len() as int));
    }
}

/// The first character of a text decides what it can begin with.
proof fn lemma_first(p: Seq<char>, s: Seq<char>)
    requires
        p.len() > 0,
        p.is_prefix_of(s),
    ensures
        s.len() > 0,
        s[0] == p[0],
{
    lemma_prefix(p, s);
    assert(p[0] == s[0]);
}

/// The marks of content, as first characters.
proof fn lemma_marks(line: Seq<char>)
    ensures
        " "@.is_prefix_of(line) <==> line.len() > 0 && line[0] == ' ',
        "-"@.is_prefix_of(line) <==> line.len() > 0 && line[0] == '-',
        "+"@.is_prefix_of(line) <==> line.len() > 0 && line[0] == '+',
{
    reveal_strlit(" ");
    reveal_strlit("-");
    reveal_strlit("+");
    lemma_prefix(" "@, line);
    lemma_prefix("-"@, line);
    lemma_prefix("+"@, line);
    assert(" "@[0] == ' ' && "-"@[0] == '-' && "+"@[0] == '+');
}

proof fn lemma_content_is_no_note(line: Seq<char>)
    requires
        is_content(line),
    ensures
        line.len() > 0,
        !begins_with_note(line),
        !"\\ "@.is_prefix_of(line),
        !"diff --git a/"@.is_prefix_of(line),
        line[0] == ' ' || line[0] == '-' || line[0] == '+',
{
    lemma_reveal();
    lemma_marks(line);
    if "\\ "@.is_prefix_of(line) {
        lemma_first("\\ "@, line);
    }
    if "diff --git a/"@.is_prefix_of(line) {
        lemma_first("diff --git a/"@, line);
    }
    lemma_notes(line);
    if "index"@.is_prefix_of(line) {
        lemma_first("index"@, line);
    }
    if "---"@.is_prefix_of(line) {
        lemma_first("---"@, line);
    }
    if "+++"@.is_prefix_of(line) {
        lemma_first("+++"@, line);
    }
    if "@@"@.is_prefix_of(line) {
        lemma_first("@@"@, line);
    }
    if "new file mode"@.is_prefix_of(line) {
        lemma_first("new file mode"@, line);
    }
    if "new mode"@.is_prefix_of(line) {
        lemma_first("new mode"@, line);
    }
    if "old mode"@.is_prefix_of(line) {
        lemma_first("old mode"@, line);
    }
    if "deleted file mode"@.is_prefix_of(line) {
        lemma_first("deleted file mode"@, line);
    }
    if "rename from"@.is_prefix_of(line) {
        lemma_first("rename from"@, line);
    }
    if "rename to"@.is_prefix_of(line) {
        lemma_first("rename to"@, line);
    }
    if "copy from"@.is_prefix_of(line) {
        lemma_first("copy from"@, line);
    }
    if "copy to"@.is_prefix_of(line) {
        lemma_first("copy to"@, line);
    }
    if "similarity index"@.is_prefix_of(line) {
        lemma_first("similarity index"@, line);
    }
    if "dissimilarity index"@.is_prefix_of(line) {
        lemma_first("dissimilarity index"@, line);
    }
    if "Binary files"@.is_prefix_of(line) {
        lemma_first("Binary files"@, line);
    }
}

proof fn lemma_reveal()
    ensures
        "\\ "@.len() == 2 && "\\ "@[0] == '\\',
        "diff --git a/"@.len() == 13 && "diff --git a/"@[0] == 'd',
        "index"@.len() == 5 && "index"@[0] == 'i',
        "---"@.len() == 3 && "---"@[0] == '-',
        "+++"@.len() == 3 && "+++"@[0] == '+',
        "@@"@.len() == 2 && "@@"@[0] == '@',
        "new file mode"@.len() > 0 && "new file mode"@[0] == 'n',
        "new mode"@.len() > 0 && "new mode"@[0] == 'n',
        "old mode"@.len() > 0 && "old mode"@[0] == 'o',
        "deleted file mode"@.len() > 0 && "deleted file mode"@[0] == 'd',
        "rename from"@.len() > 0 && "rename from"@[0] == 'r',
        "rename to"@.len() > 0 && "rename to"@[0] == 'r',
        "copy from"@.len() > 0 && "copy from"@[0] == 'c',
        "copy to"@.len() > 0 && "copy to"@[0] == 'c',
        "similarity index"@.len() > 0 && "similarity index"@[0] == 's',
        "dissimilarity index"@.len() > 0 && "dissimilarity index"@[0] == 'd',
        "Binary files"@.len() > 0 && "Binary files"@[0] == 'B',
{
    reveal_strlit("\\ ");
    reveal_strlit("diff --git a/");
    reveal_strlit("index");
    reveal_strlit("---");
    reveal_strlit("+++");
    reveal_strlit("@@");
    reveal_strlit("new file mode");
    reveal_strlit("new mode");
    reveal_strlit("old mode");
    reveal_strlit("deleted file mode");
    reveal_strlit("rename from");
    reveal_strlit("rename to");
    reveal_strlit("copy from");
    reveal_strlit("copy to");
    reveal_strlit("similarity index");
    reveal_strlit("dissimilarity index");
    reveal_strlit("Binary files");
}

/// The notes, one by one.
proof fn lemma_notes(line: Seq<char>)
    ensures
        begins_with_note(line) <==> {
            ||| "index"@.is_prefix_of(line)
            ||| "---"@.is_prefix_of(line)
            ||| "+++"@.is_prefix_of(line)
            ||| "@@"@.is_prefix_of(line)
            ||| "new file mode"@.is_prefix_of(line)
            ||| "new mode"@.is_prefix_of(line)
            ||| "old mode"@.is_prefix_of(line)
            ||| "deleted file mode"@.is_prefix_of(line)
            ||| "rename from"@.is_prefix_of(line)
            ||| "rename to"@.is_prefix_of(line)
            ||| "copy from"@.is_prefix_of(line)
            ||| "copy to"@.is_prefix_of(line)
            ||| "similarity index"@.is_prefix_of(line)
            ||| "dissimilarity index"@.is_prefix_of(line)
            ||| "Binary files"@.is_prefix_of(line)
        },
{
    let notes = seq![
        "index"@,
        "---"@,
        "+++"@,
        "@@"@,
        "new file mode"@,
        "new mode"@,
        "old mode"@,
        "deleted file mode"@,
        "rename from"@,
        "rename to"@,
        "copy from"@,
        "copy to"@,
        "similarity index"@,
        "dissimilarity index"@,
        "Binary files"@,
    ];
    assert(notes.len() == 15);
    assert(notes[0] == "index"@ && notes[1] == "---"@ && notes[2] == "+++"@ && notes[3] == "@@"@
        && notes[4] == "new file mode"@ && notes[5] == "new mode"@ && notes[6] == "old mode"@
        && notes[7] == "deleted file mode"@ && notes[8] == "rename from"@ && notes[9]
        == "rename to"@ && notes[10] == "copy from"@ && notes[11] == "copy to"@ && notes[12]
        == "similarity index"@ && notes[13] == "dissimilarity index"@ && notes[14]
        == "Binary files"@);
}

/// What a line says that is neither the header of a file nor that of a hunk:
/// the notes that git writes around content say nothing, a minus sign marks an
/// old line, a plus sign a new one, and every other line belongs to both
/// versions.
pub proof fn lines_are_told_by_their_beginnings(line: Seq<char>)
    ensures
        begins_with_note(line) ==> kind_of(line, None, None) == LineKind::Metadata,
        "-"@.is_prefix_of(line) && !"---"@.is_prefix_of(line) ==> kind_of(line, None, None)
            == LineKind::Removed(line),
        "+"@.is_prefix_of(line) && !"+++"@.is_prefix_of(line) ==> kind_of(line, None, None)
            == LineKind::Added(line),
        !begins_with_note(line) && !"-"@.is_prefix_of(line) && !"+"@.is_prefix_of(line) ==> kind_of(
            line,
            None,
            None,
        ) == LineKind::Context(line),
{
    lemma_notes(line);
    lemma_marks(line);
    if is_content(line) {
        lemma_content_is_no_note(line);
    }
}

/// A number in the header of a hunk is what it reads as, or 1 if it reads as
/// none.
pub proof fn hunk_numbers_are_read(s: Seq<char>)
    ensures
        number_of(s) is Some ==> hunk_number(s) == number_of(s)->0,
        number_of(s) is None ==> hunk_number(s) == 1,
{
}

/// The header of a file names it, and that of a hunk gives its two numbers,
/// whatever else a line looks like.
pub proof fn headers_come_first(
    line: Seq<char>,
    path: Seq<char>,
    a: Seq<char>,
    b: Seq<char>,
    hunk: Option<(Seq<char>, Seq<char>)>,
)
    ensures
        kind_of(line, Some(path), hunk) == LineKind::File(path),
        kind_of(line, None, Some((a, b))) == LineKind::Hunk(hunk_number(a), hunk_number(b)),
{
}

proof fn lemma_no_header(line: Seq<char>)
    requires
        !"diff --git a/"@.is_prefix_of(line),
    ensures
        crate::parse::header_path(line) is None,
{
    assert forall|a: Seq<char>, b: Seq<char>| !is_header_of(line, a, b) by {
        if is_header_of(line, a, b) {
            let p = "diff --git a/"@;
            assert(line.subrange(0, p.len() as int) =~= p);
        }
    }
}

proof fn lemma_not_a_header(line: Seq<char>)
    requires
        forall|old: Seq<char>, new: Seq<char>| !#[trigger] reads_as_header(line, old, new),
    ensures
        crate::parse::header_path(line) is None,
{
    assert forall|a: Seq<char>, b: Seq<char>| !is_header_of(line, a, b) by {
        if is_header_of(line, a, b) {
            assert(reads_as_header(line, a, b));
        }
    }
}

proof fn lemma_no_hunk(raw: Seq<char>)
    requires
        plainly_read(raw),
        !"\\ "@.is_prefix_of(trimmed_end(raw)),
        !"@@ -"@.is_prefix_of(plain(raw)),
    ensures
        crate::parse::hunk_numbers(plain(raw)) is None,
{
}

/// A line does not become a note about a missing newline by its colours.
proof fn lemma_no_marker(raw: Seq<char>)
    requires
        !"\\ "@.is_prefix_of(plain(raw)),
        plain(raw).len() > 0 ==> plain(raw)[0] != '\\',
    ensures
        plain(raw).len() > 0 ==> !"\\ "@.is_prefix_of(trimmed_end(raw)),
{
    reveal_strlit("\\ ");
    let s = trimmed_end(raw);
    if "\\ "@.is_prefix_of(s) {
        lemma_first("\\ "@, s);
        assert(without_colours(s)[0] == s[0]);
    }
}

/// A line that begins with a space, with a minus sign but no three, or with a
/// plus sign but no three, is content, whatever follows: it stands on the old
/// side, the new side or both, under the next number there.
pub proof fn content_gets_the_next_number(lines: Seq<Seq<char>>, raw: Seq<char>)
    requires
        plainly_read(raw),
        is_content(plain(raw)),
    ensures
        ({
            let r = reading(lines);
            let t = reading(lines.push(raw));
            let line = plain(raw);
            let old = (r.next_base as usize, line);
            let new = (r.next_head as usize, line);
            &&& t.files == r.files && t.current == r.current
            &&& " "@.is_prefix_of(line) || "-"@.is_prefix_of(line) ==> t.base == r.base.push(old)
                && t.next_base == r.next_base + 1
            &&& " "@.is_prefix_of(line) || "+"@.is_prefix_of(line) ==> t.head == r.head.push(new)
                && t.next_head == r.next_head + 1
            &&& "-"@.is_prefix_of(line) ==> t.head == r.head && t.next_head == r.next_head
            &&& "+"@.is_prefix_of(line) ==> t.base == r.base && t.next_base == r.next_base
        }),
{
    let line = plain(raw);
    reveal_strlit("@@ -");
    lemma_marks(line);
    lemma_content_is_no_note(line);
    lemma_no_header(line);
    lemma_no_marker(raw);
    assert(!"@@ -"@.is_prefix_of(line)) by {
        if "@@ -"@.is_prefix_of(line) {
            lemma_first("@@ -"@, line);
        }
    }
    lemma_no_hunk(raw);
    lines_are_told_by_their_beginnings(line);
    assert(lines.push(raw).drop_last() =~= lines);
}

/// Any other line that no note begins, and that is the header of nothing, is
/// content of both versions.
pub proof fn unmarked_lines_are_context(lines: Seq<Seq<char>>, raw: Seq<char>)
    requires
        plainly_read(raw),
        !"\\ "@.is_prefix_of(trimmed_end(raw)),
        forall|old: Seq<char>, new: Seq<char>| !#[trigger] reads_as_header(plain(raw), old, new),
        !begins_with_note(plain(raw)),
        !"-"@.is_prefix_of(plain(raw)),
        !"+"@.is_prefix_of(plain(raw)),
    ensures
        ({
            let r = reading(lines);
            reading(lines.push(raw)) == (Reading {
                base: r.base.push((r.next_base as usize, plain(raw))),
                head: r.head.push((r.next_head as usize, plain(raw))),
                next_base: r.next_base + 1,
                next_head: r.next_head + 1,
                ..r
            })
        }),
{
    let line = plain(raw);
    lemma_not_a_header(line);
    lemma_notes(line);
    reveal_strlit("@@");
    reveal_strlit("@@ -");
    lemma_prefix("@@"@, line);
    lemma_prefix("@@ -"@, line);
    assert(!"@@ -"@.is_prefix_of(line)) by {
        if "@@ -"@.is_prefix_of(line) {
            assert("@@ -"@[0] == line[0] && "@@ -"@[1] == line[1]);
        }
    }
    lemma_no_hunk(raw);
    lines_are_told_by_their_beginnings(line);
    assert(lines.push(raw).drop_last() =~= lines);
}

/// The notes that git writes around content change nothing; neither does the
/// one about a missing newline. What looks like the header of a hunk in ASCII
/// but is none is such a note.
pub proof fn notes_are_passed_over(lines: Seq<Seq<char>>, raw: Seq<char>)
    requires
        plainly_read(raw),
        "\\ "@.is_prefix_of(trimmed_end(raw)) || begins_with_note(plain(raw)) && (
        !"@@ -"@.is_prefix_of(plain(raw)) || is_ascii_chars(plain(raw)) && forall|
            a: Seq<char>,
            x: Seq<char>,
            b: Seq<char>,
            y: Seq<char>,
            rest: Seq<char>,
        |
            !#[trigger] is_hunk_header(plain(raw), a, x, b, y, rest)),
    ensures
        reading(lines.push(raw)) == reading(lines),
{
    let line = plain(raw);
    assert(lines.push(raw).drop_last() =~= lines);
    if !"\\ "@.is_prefix_of(trimmed_end(raw)) {
        lemma_notes(line);
        assert(!"diff --git a/"@.is_prefix_of(line)) by {
            if "diff --git a/"@.is_prefix_of(line) {
                lemma_header_is_no_note(line);
            }
        }
        lemma_no_header(line);
        lines_are_told_by_their_beginnings(line);
    }
}

proof fn lemma_header_is_no_note(line: Seq<char>)
    requires
        "diff --git a/"@.is_prefix_of(line),
    ensures
        !begins_with_note(line),
{
    reveal_strlit("diff --git a/");
    reveal_strlit("deleted file mode");
    reveal_strlit("dissimilarity index");
    lemma_reveal();
    lemma_notes(line);
    lemma_prefix("diff --git a/"@, line);
    assert("diff --git a/"@[0] == line[0] && "diff --git a/"@[1] == line[1]
        && "diff --git a/"@[2] == line[2]);
    if "index"@.is_prefix_of(line) {
        lemma_first("index"@, line);
    }
    if "---"@.is_prefix_of(line) {
        lemma_first("---"@, line);
    }
    if "+++"@.is_prefix_of(line) {
        lemma_first("+++"@, line);
    }
    if "@@"@.is_prefix_of(line) {
        lemma_first("@@"@, line);
    }
    if "new file mode"@.is_prefix_of(line) {
        lemma_first("new file mode"@, line);
    }
    if "new mode"@.is_prefix_of(line) {
        lemma_first("new mode"@, line);
    }
    if "old mode"@.is_prefix_of(line) {
        lemma_first("old mode"@, line);
    }
    if "deleted file mode"@.is_prefix_of(line) {
        lemma_prefix("deleted file mode"@, line);
        assert("deleted file mode"@[1] == line[1]);
    }
    if "rename from"@.is_prefix_of(line) {
        lemma_first("rename from"@, line);
    }
    if "rename to"@.is_prefix_of(line) {
        lemma_first("rename to"@, line);
    }
    if "copy from"@.is_prefix_of(line) {
        lemma_first("copy from"@, line);
    }
    if "copy to"@.is_prefix_of(line) {
        lemma_first("copy to"@, line);
    }
    if "similarity index"@.is_prefix_of(line) {
        lemma_first("similarity index"@, line);
    }
    if "dissimilarity index"@.is_prefix_of(line) {
        lemma_prefix("dissimilarity index"@, line);
        assert("dissimilarity index"@[2] == line[2]);
    }
    if "Binary files"@.is_prefix_of(line) {
        lemma_first("Binary files"@, line);
    }
}

/// A line reads as the header of a file for this old and this new name.
pub open spec fn reads_as_header(line: Seq<char>, old: Seq<char>, new: Seq<char>) -> bool {
    &&& line == "diff --git a/"@ + old + " b/"@ + new
    &&& old.len() > 0 && !old.contains('\n')
    &&& new.len() > 0 && !new.contains('\n')
}

/// The header of a file completes the file before it and begins a new one, at
/// line 1 of both versions. What stands before the first header is kept for
/// the first file. Where the line can be read in several ways, the old name is
/// the longest.
pub proof fn header_opens_a_file(
    lines: Seq<Seq<char>>,
    raw: Seq<char>,
    old: Seq<char>,
    new: Seq<char>,
)
    requires
        reads_as_header(plain(raw), old, new),
        forall|c: Seq<char>, d: Seq<char>| #[trigger]
            reads_as_header(plain(raw), c, d) ==> c.len() <= old.len(),
    ensures
        ({
            let r = reading(lines);
            let t = reading(lines.push(raw));
            &&& t.current == new
            &&& t.next_base == 1 && t.next_head == 1
            &&& r.current.len() > 0 ==> t.files == r.files.insert(r.current, (r.base, r.head))
                && t.base.len() == 0 && t.head.len() == 0
            &&& r.current.len() == 0 ==> t.files == r.files && t.base == r.base && t.head == r.head
        }),
{
    let line = plain(raw);
    reveal_strlit("diff --git a/");
    reveal_strlit("\\ ");
    assert forall|c: Seq<char>, d: Seq<char>| #[trigger]
        is_file_header(line, c, d) implies c.len() <= old.len() by {
        assert(reads_as_header(line, c, d));
    }
    assert(is_header_of(line, old, new));
    let (a, b) = choose|a: Seq<char>, b: Seq<char>| is_header_of(line, a, b);
    assert(is_header_of(line, a, b));
    lemma_same_header(line, a, b, old, new);
    assert(line[0] == 'd') by {
        assert(line[0] == "diff --git a/"@[0]);
    }
    assert(!"\\ "@.is_prefix_of(line)) by {
        if "\\ "@.is_prefix_of(line) {
            lemma_first("\\ "@, line);
        }
    }
    lemma_no_marker(raw);
    assert(lines.push(raw).drop_last() =~= lines);
}

/// Only the header of a file begins one: the path is the longest that the line
/// can be read to end in, with something before it.
pub proof fn only_headers_open_files(raw: Seq<char>, path: Seq<char>)
    requires
        line_kind(raw) == LineKind::File(path),
    ensures
        exists|old: Seq<char>|
            old.len() > 0 && path.len() > 0 && plain(raw) == #[trigger] ("diff --git a/"@ + old
                + " b/"@ + path),
{
    let line = plain(raw);
    let (a, b) = choose|a: Seq<char>, b: Seq<char>| is_header_of(line, a, b);
    assert(is_header_of(line, a, b));
    assert(line == "diff --git a/"@ + a + " b/"@ + b);
    assert(b == path);
}

/// The header of a hunk says at which lines of the two versions it begins, and
/// changes nothing else. A number too large to be one counts as 1.
pub proof fn hunk_header_sets_the_numbers(
    lines: Seq<Seq<char>>,
    raw: Seq<char>,
    a: Seq<char>,
    x: Seq<char>,
    b: Seq<char>,
    y: Seq<char>,
    rest: Seq<char>,
)
    requires
        plainly_read(raw),
        is_hunk_header(plain(raw), a, x, b, y, rest),
    ensures
        ({
            let r = reading(lines);
            let t = reading(lines.push(raw));
            &&& t.files == r.files && t.current == r.current
            &&& t.base == r.base && t.head == r.head
            &&& t.next_base == if digits_value(a) <= usize::MAX {
                digits_value(a)
            } else {
                1
            }
            &&& t.next_head == if digits_value(b) <= usize::MAX {
                digits_value(b)
            } else {
                1
            }
        }),
{
    let line = plain(raw);
    assert(lines.push(raw).drop_last() =~= lines);
    reveal_strlit("@@ -");
    reveal_strlit("diff --git a/");
    assert(line[0] == '@') by {
        assert(line[0] == "@@ -"@[0]);
    }
    assert(!"diff --git a/"@.is_prefix_of(line)) by {
        if "diff --git a/"@.is_prefix_of(line) {
            lemma_first("diff --git a/"@, line);
        }
    }
    lemma_no_header(line);
    reveal_strlit("\\ ");
    assert(!"\\ "@.is_prefix_of(line)) by {
        if "\\ "@.is_prefix_of(line) {
            lemma_first("\\ "@, line);
        }
    }
    lemma_no_marker(raw);
    assert(a[0] != '+') by {
        assert(crate::text::is_digit(a[0]));
    }
    assert(b[0] != '+') by {
        assert(crate::text::is_digit(b[0]));
    }
}

// ---- whole hunks ----

/// The lines of a hunk, which are all content.
pub open spec fn all_content(body: Seq<Seq<char>>) -> bool {
    forall|i: int|
        0 <= i < body.len() ==> plainly_read(#[trigger] body[i]) && is_content(plain(body[i]))
}

proof fn lemma_tally_front(n: int, f: spec_fn(int) -> bool, g: spec_fn(int) -> bool)
    requires
        forall|i: int| 0 <= i < n ==> f(i) == #[trigger] g(i),
    ensures
        tally(n, f) == tally(n, g),
        0 <= tally(n, g),
        n >= 0 ==> tally(n, g) <= n,
    decreases n,
{
    if n > 0 {
        assert(f(n - 1) == g(n - 1));
        lemma_tally_front(n - 1, f, g);
    }
}

/// Where the lines of one version stand that are picked from a hunk, and under
/// which numbers.
pub open spec fn stand_in_order(
    before: Seq<(usize, Seq<char>)>,
    next: nat,
    body: Seq<Seq<char>>,
    picked: spec_fn(int) -> bool,
    after: Seq<(usize, Seq<char>)>,
) -> bool {
    &&& after.len() == before.len() + tally(body.len() as int, picked)
    &&& forall|i: int| 0 <= i < before.len() ==> #[trigger] after[i] == before[i]
    &&& forall|i: int|
        0 <= i < body.len() && #[trigger] picked(i) ==> {
            let k = tally(i, picked);
            &&& 0 <= k < tally(body.len() as int, picked)
            &&& after[before.len() + k] == ((next + k) as usize, plain(body[i]))
        }
}

proof fn lemma_one_more(
    before: Seq<(usize, Seq<char>)>,
    next: nat,
    body: Seq<Seq<char>>,
    f: spec_fn(int) -> bool,
    middle: Seq<(usize, Seq<char>)>,
    picked: spec_fn(int) -> bool,
    after: Seq<(usize, Seq<char>)>,
)
    requires
        body.len() > 0,
        forall|i: int| 0 <= i < body.len() - 1 ==> f(i) == #[trigger] picked(i),
        stand_in_order(before, next, body.drop_last(), f, middle),
        after == if picked(body.len() - 1) {
            middle.push(
                (
                    (next + tally(body.len() - 1, picked)) as usize,
                    plain(body.last()),
                ),
            )
        } else {
            middle
        },
    ensures
        stand_in_order(before, next, body, picked, after),
{
    let n = body.len() as int;
    let front = body.drop_last();
    lemma_tally_front(n - 1, f, picked);
    assert forall|i: int| 0 <= i < before.len() implies #[trigger] after[i] == before[i] by {
        assert(middle[i] == before[i]);
    }
    assert forall|i: int| 0 <= i < n && #[trigger] picked(i) implies ({
        let k = tally(i, picked);
        &&& 0 <= k < tally(n, picked)
        &&& after[before.len() + k] == ((next + k) as usize, plain(body[i]))
    }) by {
        lemma_tally_front(i, f, picked);
        if i < n - 1 {
            assert(f(i));
            assert(front[i] == body[i]);
        }
    }
}

/// A line of a hunk that belongs to the old version.
pub open spec fn is_old(body: Seq<Seq<char>>) -> spec_fn(int) -> bool {
    |i: int| !"+"@.is_prefix_of(plain(body[i]))
}

/// A line of a hunk that belongs to the new version.
pub open spec fn is_new(body: Seq<Seq<char>>) -> spec_fn(int) -> bool {
    |i: int| !"-"@.is_prefix_of(plain(body[i]))
}

/// A hunk is read line by line: on either side its lines stand in their order,
/// numbered one by one, and no other.
pub proof fn hunk_is_read_line_by_line(before: Seq<Seq<char>>, body: Seq<Seq<char>>)
    requires
        all_content(body),
    ensures
        ({
            let r = reading(before);
            let t = reading(before + body);
            &&& t.files == r.files && t.current == r.current
            &&& t.next_base == r.next_base + tally(body.len() as int, is_old(body))
            &&& t.next_head == r.next_head + tally(body.len() as int, is_new(body))
            &&& stand_in_order(r.base, r.next_base, body, is_old(body), t.base)
            &&& stand_in_order(r.head, r.next_head, body, is_new(body), t.head)
        }),
    decreases body.len(),
{
    let r = reading(before);
    let t = reading(before + body);
    let n = body.len() as int;
    if n == 0 {
        assert(before + body =~= before);
    } else {
        let front = body.drop_last();
        let last = body[n - 1];
        let m = reading(before + front);
        assert(all_content(front)) by {
            assert forall|i: int| 0 <= i < front.len() implies plainly_read(#[trigger] front[i])
                && is_content(plain(front[i])) by {
                assert(front[i] == body[i]);
            }
        }
        hunk_is_read_line_by_line(before, front);
        assert(before + body =~= (before + front).push(last));
        assert(plainly_read(body[n - 1]));
        content_gets_the_next_number(before + front, last);
        lemma_marks(plain(last));
        lemma_content_is_no_note(plain(last));
        lemma_tally_front(n - 1, is_old(front), is_old(body));
        lemma_tally_front(n - 1, is_new(front), is_new(body));
        lemma_one_more(r.base, r.next_base, body, is_old(front), m.base, is_old(body), t.base);
        lemma_one_more(r.head, r.next_head, body, is_new(front), m.head, is_new(body), t.head);
    }
}

// ---- colours ----

/// A colour sequence is taken out of a line, up to the letter that ends it, and
/// everything else stays.
pub proof fn colours_are_taken_out(codes: Seq<char>, c: char, rest: Seq<char>)
    requires
        !codes.contains('m'),
        !codes.contains('\n'),
    ensures
        without_colours(seq!['\x1b', '['] + codes + seq!['m'] + rest) == without_colours(rest),
        c != '\x1b' ==> without_colours(seq![c] + rest) == seq![c] + without_colours(rest),
        rest.len() == 0 || rest[0] != '[' ==> without_colours(seq!['\x1b'] + rest) == seq!['\x1b']
            + without_colours(rest),
        without_colours(Seq::empty()) == Seq::<char>::empty(),
{
    let s = seq!['\x1b', '['] + codes + seq!['m'] + rest;
    let n = codes.len() as int;
    let inner = s.skip(2);
    lemma_first_index(inner, 'm');
    let k = first_index(inner, 'm');
    assert(inner[n] == 'm');
    assert(k == n) by {
        if k < n {
            assert(inner[k] == codes[k]);
            assert(codes.contains(codes[k]));
        }
    }
    assert(s.subrange(2, 2 + n) =~= codes);
    assert(s.skip(3 + n) =~= rest);
    assert((seq![c] + rest).skip(1) =~= rest);
    assert((seq!['\x1b'] + rest).skip(1) =~= rest);
}

// ---- the files ----

/// The file that is being read belongs to the files of the diff, with what has
/// been read of it, and every file that is complete.
pub proof fn files_are_kept(r: Reading, path: Seq<char>)
    ensures
        files_read(r).contains_key(path) <==> r.files.contains_key(path) || path == r.current
            && path.len() > 0,
        path == r.current && path.len() > 0 ==> files_read(r)[path] == (r.base, r.head),
        path != r.current && r.files.contains_key(path) ==> files_read(r)[path] == r.files[path],
{
}

/// Before the first line nothing is read, and both versions are at line 1.
pub proof fn reading_starts_empty()
    ensures
        reading(Seq::empty()).files == Map::<
            Seq<char>,
            (Seq<(usize, Seq<char>)>, Seq<(usize, Seq<char>)>),
        >::empty(),
        reading(Seq::empty()).current.len() == 0,
        reading(Seq::empty()).base.len() == 0,
        reading(Seq::empty()).head.len() == 0,
        reading(Seq::empty()).next_base == 1,
        reading(Seq::empty()).next_head == 1,
{
}

/// A diff can be counted, unless it names line numbers to which its length
/// cannot be added.
pub proof fn ordinary_diffs_are_countable(lines: Seq<Seq<char>>)
    requires
        lines.len() < usize::MAX,
        forall|i: int|
            0 <= i < lines.len() ==> match line_kind(#[trigger] lines[i]) {
                LineKind::Hunk(a, b) => a + lines.len() <= usize::MAX && b + lines.len()
                    <= usize::MAX,
                _ => true,
            },
    ensures
        countable(lines),
{
    assert forall|k: int| 0 <= k <= lines.len() implies in_range(
        #[trigger] reading(lines.take(k)),
    ) by {
        lemma_numbers_bounded(lines, k);
    }
}

proof fn lemma_numbers_bounded(lines: Seq<Seq<char>>, k: int)
    requires
        lines.len() < usize::MAX,
        0 <= k <= lines.len(),
        forall|i: int|
            0 <= i < lines.len() ==> match line_kind(#[trigger] lines[i]) {
                LineKind::Hunk(a, b) => a + lines.len() <= usize::MAX && b + lines.len()
                    <= usize::MAX,
                _ => true,
            },
    ensures
        reading(lines.take(k)).next_base + (lines.len() - k) <= usize::MAX,
        reading(lines.take(k)).next_head + (lines.len() - k) <= usize::MAX,
    decreases k,
{
    if k > 0 {
        lemma_numbers_bounded(lines, k - 1);
        assert(lines.take(k).drop_last() =~= lines.take(k - 1));
        assert(lines.take(k).last() == lines[k - 1]);
    } else {
        assert(lines.take(0) =~= Seq::<Seq<char>>::empty());
    }
}

/// A number can be counted from if there is a next one.
pub proof fn countable_is_in_range(lines: Seq<Seq<char>>, k: int)
    requires
        countable(lines),
        0 <= k <= lines.len(),
    ensures
        reading(lines.take(k)).next_base <= usize::MAX,
        reading(lines.take(k)).next_head <= usize::MAX,
{
}

/// What is shown of numbered lines is all that there is of them.
pub proof fn sides_show_every_line(d: FileDiff, m: Map<Seq<char>, FileDiff>, path: Seq<char>)
    ensures
        sides(d).0.len() == d.0@.len() && sides(d).1.len() == d.1@.len(),
        forall|i: int| 0 <= i < d.0@.len() ==> #[trigger] sides(d).0[i] == (d.0@[i].0, d.0@[i].1@),
        forall|i: int| 0 <= i < d.1@.len() ==> #[trigger] sides(d).1[i] == (d.1@[i].0, d.1@[i].1@),
        all_sides(m).contains_key(path) <==> m.contains_key(path),
        m.contains_key(path) ==> all_sides(m)[path] == sides(m[path]),
{
}

} // verus!
