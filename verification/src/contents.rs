//! Files as lines, and edits of whole files.

use vstd::prelude::*;

use crate::edits::{apply_operations, edits, schedule, weave, ChangeOp};
use crate::text::{
    first_index, join, joined, lemma_first_index, lines_of, occurs, occurs_at, push_char, split_lines,
    to_chars, without_return,
};

verus! {

/// The newline at the end of a file, where it has one.
pub open spec fn ending(content: Seq<char>) -> Seq<char> {
    if content.len() > 0 && content.last() == '\n' {
        seq!['\n']
    } else {
        Seq::empty()
    }
}

/// A file of these lines, ended as `content` is.
pub open spec fn rejoined(lines: Seq<Seq<char>>, content: Seq<char>) -> Seq<char> {
    joined(lines, "\n"@) + ending(content)
}

/// Whether a file ends in a newline.
fn ends_in_newline(content: &str) -> (r: bool)
    ensures
        r == (ending(content@).len() > 0),
{
    let chars: Vec<char> = to_chars(content);
    let len: usize = chars.len();
    len > 0 && chars[len - 1] == '\n'
}

/// What a file holds after its changes. Without any operation there is nothing
/// to write. The file keeps the newline at its end, or the lack of one.
pub fn apply_changes(original_content: &str, operations: &[ChangeOp]) -> (r: Option<String>)
    ensures
        match r {
            None => operations@.len() == 0,
            Some(content) => operations@.len() > 0 && content@ == rejoined(
                weave(
                    lines_of(original_content@),
                    edits(operations@),
                    schedule(edits(operations@), true),
                    1,
                ),
                original_content@,
            ),
        },
{
    if operations.len() == 0 {
        return None;
    }
    let lines: Vec<String> = split_lines(original_content);
    let result_lines: Vec<String> = apply_operations(&lines, operations);
    let mut result: String = join(&result_lines, "\n");
    let ghost body = result@;
    if ends_in_newline(original_content) {
        push_char(&mut result, '\n');
    }
    assert(result@ =~= body + ending(original_content@));
    Some(result)
}

proof fn lemma_joined_first(parts: Seq<Seq<char>>, separator: Seq<char>)
    requires
        parts.len() > 1,
    ensures
        joined(parts, separator) == parts[0] + separator + joined(parts.skip(1), separator),
    decreases parts.len(),
{
    let rest = parts.skip(1);
    if parts.len() > 2 {
        lemma_joined_first(parts.drop_last(), separator);
        assert(parts.drop_last().skip(1) =~= rest.drop_last());
        assert(joined(parts, separator) =~= parts[0] + separator + (joined(
            rest.drop_last(),
            separator,
        ) + separator + rest.last()));
    } else {
        assert(joined(parts.drop_last(), separator) == parts[0]);
        assert(joined(rest, separator) == rest[0]);
    }
}

/// A file without carriage returns before its newlines is its lines, put
/// together again.
pub proof fn lines_rejoin(content: Seq<char>)
    requires
        !occurs(content, "\r\n"@),
    ensures
        rejoined(lines_of(content), content) == content,
    decreases content.len(),
{
    reveal_strlit("\r\n");
    reveal_strlit("\n");
    let end = first_index(content, '\n');
    lemma_first_index(content, '\n');
    let lines = lines_of(content);
    if content.len() == 0 {
        assert(rejoined(lines, content) =~= content);
    } else if end >= content.len() {
        assert(lines =~= seq![content]);
        assert(rejoined(lines, content) =~= content);
    } else {
        let line = content.take(end);
        let rest = content.skip(end + 1);
        assert(without_return(line) == line) by {
            if line.len() > 0 && line.last() == '\r' {
                assert(content.subrange(end - 1, end + 1) =~= "\r\n"@);
                assert(occurs_at(content, "\r\n"@, end - 1));
            }
        }
        assert(!occurs(rest, "\r\n"@)) by {
            if occurs(rest, "\r\n"@) {
                let i = choose|i: int| occurs_at(rest, "\r\n"@, i);
                assert(content.subrange(i + end + 1, i + end + 3) =~= rest.subrange(i, i + 2));
                assert(occurs_at(content, "\r\n"@, i + end + 1));
            }
        }
        lines_rejoin(rest);
        assert(lines == seq![line] + lines_of(rest));
        assert(lines.skip(1) =~= lines_of(rest));
        assert(content =~= line + "\n"@ + rest);
        if rest.len() > 0 {
            assert(rest.last() == content.last());
            assert(lines_of(rest).len() > 0);
            lemma_joined_first(lines, "\n"@);
            assert(rejoined(lines, content) =~= line + "\n"@ + rejoined(lines_of(rest), rest));
        } else {
            assert(lines =~= seq![line]);
            assert(rejoined(lines, content) =~= line + "\n"@);
            assert(content =~= line + "\n"@);
        }
    }
}

/// Lines that can be told apart once they are written: none holds a newline,
/// none before a newline ends in a carriage return, and the last one ends in a
/// newline or is not empty.
pub open spec fn can_be_read_back(lines: Seq<Seq<char>>, content: Seq<char>) -> bool {
    &&& forall|i: int| 0 <= i < lines.len() ==> !(#[trigger] lines[i]).contains('\n')
    &&& forall|i: int|
        0 <= i < lines.len() && (i < lines.len() - 1 || ending(content).len() > 0)
            ==> without_return(#[trigger] lines[i]) == lines[i]
    &&& if ending(content).len() > 0 {
        lines.len() > 0
    } else {
        lines.len() > 0 ==> lines.last().len() > 0
    }
}

/// Lines that are written to a file are the lines that are read from it.
pub proof fn written_lines_are_read_back(lines: Seq<Seq<char>>, content: Seq<char>)
    requires
        can_be_read_back(lines, content),
    ensures
        lines_of(rejoined(lines, content)) == lines,
    decreases lines.len(),
{
    reveal_strlit("\n");
    let text = rejoined(lines, content);
    if lines.len() == 0 {
        assert(text =~= Seq::<char>::empty());
        assert(lines =~= Seq::<Seq<char>>::empty());
    } else {
        let first = lines[0];
        let rest = lines.skip(1);
        assert(lines.len() == 1 ==> lines.last() == first);
        if lines.len() == 1 && ending(content).len() == 0 {
            assert(text =~= first);
            lemma_first_line(first, Seq::empty());
            assert(lines =~= seq![first]);
        } else {
            let after = if lines.len() == 1 {
                Seq::<char>::empty()
            } else {
                rejoined(rest, content)
            };
            if lines.len() > 1 {
                lemma_joined_first(lines, "\n"@);
                assert forall|i: int| 0 <= i < rest.len() implies !(#[trigger] rest[i]).contains(
                    '\n',
                ) by {
                    assert(rest[i] == lines[i + 1]);
                }
                assert forall|i: int|
                    0 <= i < rest.len() && (i < rest.len() - 1 || ending(content).len()
                        > 0) implies without_return(#[trigger] rest[i]) == rest[i] by {
                    assert(rest[i] == lines[i + 1]);
                }
                assert(rest.last() == lines.last());
                written_lines_are_read_back(rest, content);
            }
            assert(text =~= first + "\n"@ + after);
            lemma_first_line(first, after);
            assert(without_return(lines[0]) == lines[0]);
            assert(lines =~= seq![first] + rest);
            assert(lines_of(after) =~= rest);
        }
    }
}

/// The lines of a text that begins with a line.
pub proof fn lemma_first_line(line: Seq<char>, after: Seq<char>)
    requires
        !line.contains('\n'),
    ensures
        lines_of(line + "\n"@ + after) == seq![without_return(line)] + lines_of(after),
        line.len() > 0 ==> lines_of(line) == seq![line],
{
    reveal_strlit("\n");
    let text = line + "\n"@ + after;
    let n = line.len() as int;
    assert forall|i: int| 0 <= i < n implies line[i] != '\n' by {
        if line[i] == '\n' {
            assert(line.contains('\n'));
        }
    }
    lemma_first_index(text, '\n');
    lemma_first_index(line, '\n');
    let end = first_index(text, '\n');
    assert(text[n] == '\n');
    assert(end == n) by {
        if end < n {
            assert(text[end] == line[end]);
        }
    }
    assert(text.take(n) =~= line);
    assert(text.skip(n + 1) =~= after);
    let at = first_index(line, '\n');
    assert(at >= line.len()) by {
        if at < line.len() {
            assert(line[at] == '\n');
        }
    }
}

} // verus!
