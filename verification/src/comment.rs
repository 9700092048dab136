//! Writing a comment: a line of text with a cursor that counts bytes.

use vstd::prelude::*;
use vstd::utf8::{encode_scalar, encode_utf8, is_ascii_chars, is_ascii_chars_encode_utf8};

use crate::input::Key;
use crate::state::{Comment, CommentInput};
use crate::text::{concat, decimal, from_chars, numeral, push_char, to_chars, trim, trimmed};

verus! {

// ---- bytes and characters ----

/// How many bytes a text takes.
pub open spec fn byte_len(s: Seq<char>) -> nat {
    encode_utf8(s).len()
}

/// The character at index `k`, or the end of the text, begins at byte `pos`.
pub open spec fn begins_at(s: Seq<char>, k: int, pos: int) -> bool {
    0 <= k <= s.len() && byte_len(s.take(k)) == pos
}

/// A character, or the end of the text, begins at byte `pos`.
pub open spec fn is_boundary(s: Seq<char>, pos: int) -> bool {
    exists|k: int| begins_at(s, k, pos)
}

/// The index of the character that begins at byte `pos`.
pub open spec fn char_index(s: Seq<char>, pos: int) -> int {
    choose|k: int| begins_at(s, k, pos)
}

/// The bytes of two texts, one behind the other.
pub proof fn lemma_encode_concat(a: Seq<char>, b: Seq<char>)
    ensures
        encode_utf8(a + b) == encode_utf8(a) + encode_utf8(b),
    decreases a.len(),
{
    if a.len() == 0 {
        assert(a + b =~= b);
        assert(encode_utf8(a) + encode_utf8(b) =~= encode_utf8(b));
    } else {
        lemma_encode_concat(a.drop_first(), b);
        assert((a + b).drop_first() =~= a.drop_first() + b);
        assert(encode_utf8(a + b) =~= encode_utf8(a) + encode_utf8(b));
    }
}

/// The next character begins as many bytes further on as this one takes.
pub proof fn lemma_next_offset(s: Seq<char>, k: int)
    requires
        0 <= k < s.len(),
    ensures
        byte_len(s.take(k + 1)) == byte_len(s.take(k)) + encode_scalar(s[k] as u32).len(),
        1 <= encode_scalar(s[k] as u32).len() <= 4,
{
    let one = seq![s[k]];
    assert(s.take(k + 1) =~= s.take(k) + one);
    lemma_encode_concat(s.take(k), one);
    assert(one.drop_first() =~= Seq::<char>::empty());
    assert(encode_utf8(one) =~= encode_scalar(s[k] as u32) + encode_utf8(one.drop_first()));
    assert(encode_utf8(Seq::<char>::empty()).len() == 0);
}

/// Later characters begin at later bytes.
proof fn lemma_offsets_grow(s: Seq<char>, j: int, k: int)
    requires
        0 <= j <= k <= s.len(),
    ensures
        j < k ==> byte_len(s.take(j)) < byte_len(s.take(k)),
    decreases k - j,
{
    if j < k {
        lemma_next_offset(s, k - 1);
        lemma_offsets_grow(s, j, k - 1);
    }
}

/// Only one character begins at a byte.
pub proof fn lemma_char_index_is(s: Seq<char>, k: int, pos: int)
    requires
        begins_at(s, k, pos),
    ensures
        is_boundary(s, pos),
        char_index(s, pos) == k,
{
    let j = char_index(s, pos);
    assert(begins_at(s, j, pos));
    if j < k {
        lemma_offsets_grow(s, j, k);
    } else {
        lemma_offsets_grow(s, k, j);
    }
}

/// How many bytes a text takes.
fn text_len(s: &str) -> (r: usize)
    ensures
        r == byte_len(s@),
{
    let bytes: &[u8] = s.as_bytes();
    bytes.len()
}

/// How many bytes a character takes.
fn char_width(c: char) -> (r: usize)
    ensures
        r == encode_scalar(c as u32).len(),
{
    let code: u32 = c as u32;
    if code < 0x80 {
        1
    } else if code < 0x800 {
        2
    } else if code < 0x10000 {
        3
    } else {
        4
    }
}

/// The index of the character that begins at byte `pos`.
fn find_char(chars: &[char], pos: usize) -> (r: Option<usize>)
    ensures
        match r {
            Some(k) => is_boundary(chars@, pos as int) && k == char_index(chars@, pos as int) && k
                <= chars@.len(),
            None => !is_boundary(chars@, pos as int),
        },
{
    let len: usize = chars.len();
    let mut k: usize = 0;
    let mut at: usize = 0;
    assert(byte_len(chars@.take(0)) == 0);
    while k < len && at < pos
        invariant
            k <= len == chars@.len(),
            at <= pos,
            begins_at(chars@, k as int, at as int),
        decreases len - k,
    {
        let width: usize = char_width(chars[k]);
        proof {
            lemma_next_offset(chars@, k as int);
        }
        if pos - at < width {
            proof {
                if is_boundary(chars@, pos as int) {
                    let j = char_index(chars@, pos as int);
                    if j <= k {
                        lemma_offsets_grow(chars@, j, k as int);
                    } else {
                        lemma_offsets_grow(chars@, k + 1, j);
                    }
                }
            }
            return None;
        }
        at = at + width;
        k = k + 1;
    }
    if at == pos {
        proof {
            lemma_char_index_is(chars@, k as int, pos as int);
        }
        Some(k)
    } else {
        proof {
            if is_boundary(chars@, pos as int) {
                lemma_offsets_grow(chars@, char_index(chars@, pos as int), k as int);
            }
        }
        None
    }
}

/// A text with a character put in before the one at index `k`.
fn with_char(chars: &[char], k: usize, c: char) -> (r: String)
    requires
        k <= chars@.len(),
    ensures
        r@ == chars@.insert(k as int, c),
{
    let mut r: String = from_chars(chars, 0, k);
    push_char(&mut r, c);
    r.append(&from_chars(chars, k, chars.len()));
    assert(r@ =~= chars@.insert(k as int, c));
    r
}

/// A text without the character at index `k`.
fn without_char(chars: &[char], k: usize) -> (r: String)
    requires
        k < chars@.len(),
    ensures
        r@ == chars@.remove(k as int),
{
    let len: usize = chars.len();
    let mut r: String = from_chars(chars, 0, k);
    r.append(&from_chars(chars, k + 1, len));
    assert(r@ =~= chars@.remove(k as int));
    r
}

// ---- keys ----

/// The cursor stands where the key can do its work: at a character, or with
/// one behind it that takes a single byte.
pub open spec fn can_edit(c: Comment, key: Key) -> bool {
    match key {
        Key::Char(_) => is_boundary(c.text, c.cursor_pos as int) && c.cursor_pos < usize::MAX,
        Key::Backspace => c.cursor_pos > 0 ==> is_boundary(c.text, c.cursor_pos - 1)
            && c.cursor_pos - 1 < byte_len(c.text),
        Key::Delete => c.cursor_pos < byte_len(c.text) ==> is_boundary(
            c.text,
            c.cursor_pos as int,
        ),
        _ => true,
    }
}

/// What a key makes of a comment.
pub open spec fn edited(c: Comment, key: Key) -> Comment {
    match key {
        Key::Char(ch) => Comment {
            text: c.text.insert(char_index(c.text, c.cursor_pos as int), ch),
            cursor_pos: (c.cursor_pos + 1) as usize,
            ..c
        },
        Key::Backspace => if c.cursor_pos > 0 {
            Comment {
                text: c.text.remove(char_index(c.text, c.cursor_pos - 1)),
                cursor_pos: (c.cursor_pos - 1) as usize,
                ..c
            }
        } else {
            c
        },
        Key::Delete => if c.cursor_pos < byte_len(c.text) {
            Comment { text: c.text.remove(char_index(c.text, c.cursor_pos as int)), ..c }
        } else {
            c
        },
        Key::Left => Comment {
            cursor_pos: if c.cursor_pos > 0 {
                (c.cursor_pos - 1) as usize
            } else {
                0
            },
            ..c
        },
        Key::Right => Comment {
            cursor_pos: if c.cursor_pos < byte_len(c.text) {
                (c.cursor_pos + 1) as usize
            } else {
                c.cursor_pos
            },
            ..c
        },
        Key::Home => Comment { cursor_pos: 0, ..c },
        Key::End => Comment { cursor_pos: byte_len(c.text) as usize, ..c },
        _ => c,
    }
}

/// Whether the cursor stands where the key can do its work.
pub fn comment_accepts(c: &CommentInput, key: Key) -> (r: bool)
    ensures
        r == can_edit(c@, key),
{
    match key {
        Key::Char(_) => {
            let chars: Vec<char> = to_chars(&c.text);
            c.cursor_pos < usize::MAX && find_char(&chars, c.cursor_pos).is_some()
        },
        Key::Backspace => {
            let chars: Vec<char> = to_chars(&c.text);
            c.cursor_pos == 0 || (c.cursor_pos - 1 < text_len(&c.text) && find_char(
                &chars,
                c.cursor_pos - 1,
            ).is_some())
        },
        Key::Delete => {
            let chars: Vec<char> = to_chars(&c.text);
            c.cursor_pos >= text_len(&c.text) || find_char(&chars, c.cursor_pos).is_some()
        },
        _ => true,
    }
}

/// The character that begins at byte `pos`, before the end of the text, is one
/// of the text.
proof fn lemma_inside(s: Seq<char>, pos: int)
    requires
        is_boundary(s, pos),
        pos < byte_len(s),
    ensures
        0 <= char_index(s, pos) < s.len(),
{
    let k = char_index(s, pos);
    assert(begins_at(s, k, pos));
    assert(s.take(s.len() as int) =~= s);
}

/// Takes in a key. The keys that end the comment have no effect here.
pub fn edit_comment(c: &mut CommentInput, key: Key)
    requires
        can_edit(old(c)@, key),
    ensures
        final(c)@ == edited(old(c)@, key),
{
    match key {
        Key::Char(ch) => {
            let chars: Vec<char> = to_chars(&c.text);
            if let Some(k) = find_char(&chars, c.cursor_pos) {
                c.text = with_char(&chars, k, ch);
                c.cursor_pos = c.cursor_pos + 1;
            }
        },
        Key::Backspace => {
            if c.cursor_pos > 0 {
                let chars: Vec<char> = to_chars(&c.text);
                proof {
                    lemma_inside(chars@, c.cursor_pos - 1);
                }
                if let Some(k) = find_char(&chars, c.cursor_pos - 1) {
                    c.text = without_char(&chars, k);
                    c.cursor_pos = c.cursor_pos - 1;
                }
            }
        },
        Key::Delete => {
            if c.cursor_pos < text_len(&c.text) {
                let chars: Vec<char> = to_chars(&c.text);
                proof {
                    lemma_inside(chars@, c.cursor_pos as int);
                }
                if let Some(k) = find_char(&chars, c.cursor_pos) {
                    c.text = without_char(&chars, k);
                }
            }
        },
        Key::Left => {
            c.cursor_pos = c.cursor_pos.saturating_sub(1);
        },
        Key::Right => {
            if c.cursor_pos < text_len(&c.text) {
                c.cursor_pos = c.cursor_pos + 1;
            }
        },
        Key::Home => {
            c.cursor_pos = 0;
        },
        Key::End => {
            c.cursor_pos = text_len(&c.text);
        },
        _ => {},
    }
}

// ---- the finished comment ----

/// A comment says something.
pub open spec fn is_worth_sending(c: Comment) -> bool {
    trimmed(c.text).len() > 0
}

/// What is sent: where the comment belongs, the line, and the comment.
pub open spec fn comment_message(c: Comment) -> Seq<char> {
    "[giff] "@ + c.file + ":"@ + numeral(c.line_num as nat) + ": \""@ + c.line_content
        + "\" — "@ + c.text
}

/// What is to be sent, if the comment says something.
pub fn finished_comment(c: &CommentInput) -> (r: Option<String>)
    ensures
        r.deep_view() == if is_worth_sending(c@) {
            Some(comment_message(c@))
        } else {
            None
        },
{
    if trim(&c.text).as_str().is_empty() {
        return None;
    }
    let mut r: String = concat("[giff] ", &c.file);
    r.append(":");
    r.append(&decimal(c.line_num));
    r.append(": \"");
    r.append(&c.line_content);
    r.append("\" — ");
    r.append(&c.text);
    Some(r)
}

// ---- laws ----

proof fn lemma_ascii_offsets(s: Seq<char>, pos: int)
    requires
        is_ascii_chars(s),
        0 <= pos <= s.len(),
    ensures
        is_boundary(s, pos),
        char_index(s, pos) == pos,
        byte_len(s) == s.len(),
{
    is_ascii_chars_encode_utf8(s);
    is_ascii_chars_encode_utf8(s.take(pos));
    assert(begins_at(s, pos, pos));
    lemma_char_index_is(s, pos, pos);
}

/// A comment of ASCII characters with the cursor in it takes every key but
/// characters outside ASCII, and stays such a comment.
pub proof fn ascii_comment_takes_keys(c: Comment, key: Key)
    requires
        is_ascii_chars(c.text),
        c.cursor_pos <= c.text.len(),
        c.text.len() < usize::MAX,
        key matches Key::Char(ch) ==> ch <= '\u{7f}',
    ensures
        can_edit(c, key),
        is_ascii_chars(edited(c, key).text),
        edited(c, key).cursor_pos <= edited(c, key).text.len(),
{
    lemma_ascii_offsets(c.text, c.cursor_pos as int);
    if c.cursor_pos > 0 {
        lemma_ascii_offsets(c.text, c.cursor_pos - 1);
    }
}

/// Wherever a character can go in, the backspace key takes it out again.
pub proof fn backspace_undoes_typing(c: Comment, ch: char)
    requires
        can_edit(c, Key::Char(ch)),
    ensures
        can_edit(edited(c, Key::Char(ch)), Key::Backspace),
        edited(edited(c, Key::Char(ch)), Key::Backspace) == c,
{
    let d = edited(c, Key::Char(ch));
    let pos = c.cursor_pos as int;
    let k = char_index(c.text, pos);
    assert(begins_at(c.text, k, pos));
    assert(d.text.take(k) =~= c.text.take(k));
    assert(begins_at(d.text, k, pos));
    lemma_char_index_is(d.text, k, pos);
    lemma_offsets_grow(d.text, k, d.text.len() as int);
    assert(d.text.take(d.text.len() as int) =~= d.text);
    assert(d.text.remove(k) =~= c.text);
}

} // verus!
