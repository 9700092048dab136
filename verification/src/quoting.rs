//! Paths as git prints them: a path with unusual characters stands in quotes,
//! with escapes for its bytes.

use vstd::prelude::*;
use vstd::utf8::{
    decode_utf8, encode_utf8, encode_utf8_decode_utf8, encode_utf8_valid_utf8, valid_utf8,
};

use crate::text::{from_chars, to_chars};

verus! {

/// Reads bytes as text. The call is `std::str::from_utf8`, which succeeds
/// exactly on valid UTF-8 and gives the text that the bytes encode.
#[verifier::external_body]
fn text_of(bytes: &Vec<u8>) -> (r: Option<String>)
    ensures
        match r {
            Some(text) => valid_utf8(bytes@) && text@ == decode_utf8(bytes@),
            None => !valid_utf8(bytes@),
        },
{
    std::str::from_utf8(bytes).ok().map(|s| s.to_string())
}

/// The byte that a letter stands for behind a backslash.
pub open spec fn named_byte(c: char) -> Option<u8> {
    if c == 'a' {
        Some(7)
    } else if c == 'b' {
        Some(8)
    } else if c == 't' {
        Some(9)
    } else if c == 'n' {
        Some(10)
    } else if c == 'v' {
        Some(11)
    } else if c == 'f' {
        Some(12)
    } else if c == 'r' {
        Some(13)
    } else if c == '"' {
        Some(34)
    } else if c == '\\' {
        Some(92)
    } else {
        None
    }
}

/// The byte that a letter stands for behind a backslash.
fn escape_of(c: char) -> (r: Option<u8>)
    ensures
        r == named_byte(c),
{
    match c {
        'a' => Some(7),
        'b' => Some(8),
        't' => Some(9),
        'n' => Some(10),
        'v' => Some(11),
        'f' => Some(12),
        'r' => Some(13),
        '"' => Some(34),
        '\\' => Some(92),
        _ => None,
    }
}

/// An octal digit.
pub open spec fn is_octal(c: char) -> bool {
    '0' <= c <= '7'
}

/// The byte that three octal digits stand for.
pub open spec fn octal_byte(a: char, b: char, c: char) -> Option<u8> {
    if '0' <= a <= '3' && is_octal(b) && is_octal(c) {
        Some((64 * (a as int - 48) + 8 * (b as int - 48) + (c as int - 48)) as u8)
    } else {
        None
    }
}

/// The byte that three octal digits stand for.
fn octal_of(a: char, b: char, c: char) -> (r: Option<u8>)
    ensures
        r == octal_byte(a, b, c),
{
    let x: u32 = a as u32;
    let y: u32 = b as u32;
    let z: u32 = c as u32;
    if 48 <= x && x <= 51 && 48 <= y && y <= 55 && 48 <= z && z <= 55 {
        Some((64 * (x - 48) + 8 * (y - 48) + (z - 48)) as u8)
    } else {
        None
    }
}

/// `front` before the bytes that follow, if these can be read.
pub open spec fn before(front: Seq<u8>, rest: Option<Seq<u8>>) -> Option<Seq<u8>> {
    match rest {
        Some(bytes) => Some(front + bytes),
        None => None,
    }
}

/// The bytes of a path, from what stands between the quotes: an escape stands
/// for its byte, and every other character for itself.
pub open spec fn quoted_bytes(s: Seq<char>) -> Option<Seq<u8>>
    decreases s.len(),
{
    if s.len() == 0 {
        Some(Seq::empty())
    } else if s[0] != '\\' {
        before(encode_utf8(seq![s[0]]), quoted_bytes(s.skip(1)))
    } else if s.len() >= 2 && named_byte(s[1]) is Some {
        before(seq![named_byte(s[1])->0], quoted_bytes(s.skip(2)))
    } else if s.len() >= 4 && octal_byte(s[1], s[2], s[3]) is Some {
        before(seq![octal_byte(s[1], s[2], s[3])->0], quoted_bytes(s.skip(4)))
    } else {
        None
    }
}

/// What stands between the quotes of a text, if it stands in quotes.
pub open spec fn between_quotes(s: Seq<char>) -> Option<Seq<char>> {
    if s.len() >= 2 && s[0] == '"' && s.last() == '"' {
        Some(s.subrange(1, s.len() - 1))
    } else {
        None
    }
}

/// The path that git prints as `s`. What is in quotes but is no path that can
/// be written as text stays as it is.
pub open spec fn unquoted(s: Seq<char>) -> Seq<char> {
    match between_quotes(s) {
        Some(inner) => match quoted_bytes(inner) {
            Some(bytes) => if valid_utf8(bytes) {
                decode_utf8(bytes)
            } else {
                s
            },
            None => s,
        },
        None => s,
    }
}

fn append_char(bytes: &mut Vec<u8>, chars: &[char], i: usize)
    requires
        i < chars@.len(),
    ensures
        final(bytes)@ == old(bytes)@ + encode_utf8(seq![chars@[i as int]]),
{
    let ghost start = bytes@;
    let len: usize = chars.len();
    let text: String = from_chars(chars, i, i + 1);
    assert(text@ =~= seq![chars@[i as int]]);
    let code: &[u8] = text.as_str().as_bytes();
    let mut k: usize = 0;
    assert(start + code@.take(0) =~= start);
    while k < code.len()
        invariant
            k <= code@.len(),
            bytes@ == start + code@.take(k as int),
        decreases code@.len() - k,
    {
        bytes.push(code[k]);
        k = k + 1;
        assert(bytes@ =~= start + code@.take(k as int));
    }
    assert(code@.take(k as int) =~= code@);
}

fn read_quoted(s: &[char]) -> (r: Option<Vec<u8>>)
    ensures
        match r {
            Some(bytes) => quoted_bytes(s@) == Some(bytes@),
            None => quoted_bytes(s@) is None,
        },
{
    let len: usize = s.len();
    let mut bytes: Vec<u8> = Vec::new();
    let mut i: usize = 0;
    proof {
        assert(s@.skip(0) =~= s@);
        lemma_before_nothing(quoted_bytes(s@));
    }
    while i < len
        invariant
            i <= len == s@.len(),
            before(bytes@, quoted_bytes(s@.skip(i as int))) == quoted_bytes(s@),
        decreases len - i,
    {
        let ghost rest = s@.skip(i as int);
        let ghost done = bytes@;
        let c: char = s[i];
        assert(rest[0] == c);
        if c != '\\' {
            append_char(&mut bytes, s, i);
            proof {
                assert(rest.skip(1) =~= s@.skip(i + 1));
                lemma_before_twice(done, encode_utf8(seq![c]), quoted_bytes(rest.skip(1)));
            }
            i = i + 1;
        } else {
            let named: Option<u8> = if len - i >= 2 {
                assert(rest[1] == s@[i + 1]);
                escape_of(s[i + 1])
            } else {
                None
            };
            match named {
                Some(b) => {
                    bytes.push(b);
                    proof {
                        assert(rest.skip(2) =~= s@.skip(i + 2));
                        lemma_before_twice(done, seq![b], quoted_bytes(rest.skip(2)));
                        assert(bytes@ =~= done + seq![b]);
                    }
                    i = i + 2;
                },
                None => {
                    let octal: Option<u8> = if len - i >= 4 {
                        assert(rest[1] == s@[i + 1] && rest[2] == s@[i + 2] && rest[3] == s@[i + 3]);
                        octal_of(s[i + 1], s[i + 2], s[i + 3])
                    } else {
                        None
                    };
                    match octal {
                        Some(b) => {
                            bytes.push(b);
                            proof {
                                assert(rest.skip(4) =~= s@.skip(i + 4));
                                lemma_before_twice(done, seq![b], quoted_bytes(rest.skip(4)));
                                assert(bytes@ =~= done + seq![b]);
                            }
                            i = i + 4;
                        },
                        None => {
                            return None;
                        },
                    }
                },
            }
        }
    }
    assert(bytes@ + Seq::<u8>::empty() =~= bytes@);
    Some(bytes)
}

proof fn lemma_before_nothing(rest: Option<Seq<u8>>)
    ensures
        before(Seq::empty(), rest) == rest,
{
    if let Some(bytes) = rest {
        assert(Seq::<u8>::empty() + bytes =~= bytes);
    }
}

proof fn lemma_before_twice(a: Seq<u8>, b: Seq<u8>, rest: Option<Seq<u8>>)
    ensures
        before(a, before(b, rest)) == before(a + b, rest),
{
    if let Some(bytes) = rest {
        assert(a + (b + bytes) =~= a + b + bytes);
    }
}

/// The path that git prints so.
pub fn unquote(printed: &str) -> (r: String)
    ensures
        r@ == unquoted(printed@),
{
    let chars: Vec<char> = to_chars(printed);
    let len: usize = chars.len();
    if len >= 2 && chars[0] == '"' && chars[len - 1] == '"' {
        let text: String = from_chars(&chars, 1, len - 1);
        let inner: Vec<char> = to_chars(&text);
        if let Some(bytes) = read_quoted(&inner) {
            if let Some(path) = text_of(&bytes) {
                return path;
            }
        }
    }
    printed.to_string()
}

/// A path in quotes that holds no backslash is what stands between them.
pub proof fn plain_quotes_come_off(inner: Seq<char>)
    requires
        !inner.contains('\\'),
    ensures
        unquoted(seq!['"'] + inner + seq!['"']) == inner,
{
    let s = seq!['"'] + inner + seq!['"'];
    assert(s.subrange(1, s.len() - 1) =~= inner);
    lemma_plain_bytes(inner);
    encode_utf8_valid_utf8(inner);
    encode_utf8_decode_utf8(inner);
}

proof fn lemma_plain_bytes(s: Seq<char>)
    requires
        !s.contains('\\'),
    ensures
        quoted_bytes(s) == Some(encode_utf8(s)),
    decreases s.len(),
{
    if s.len() > 0 {
        let one = seq![s[0]];
        let rest = s.skip(1);
        assert(s.contains(s[0]));
        assert(!rest.contains('\\')) by {
            if rest.contains('\\') {
                let i = choose|i: int| 0 <= i < rest.len() && rest[i] == '\\';
                assert(s[i + 1] == '\\');
            }
        }
        lemma_plain_bytes(rest);
        assert(s.drop_first() =~= rest);
        assert(one.drop_first() =~= Seq::<char>::empty());
        assert(encode_utf8(Seq::<char>::empty()) =~= Seq::<u8>::empty());
        reveal_with_fuel(encode_utf8, 2);
        assert(encode_utf8(one) =~= vstd::utf8::encode_scalar(s[0] as u32));
    } else {
        assert(encode_utf8(s) =~= Seq::<u8>::empty());
    }
}

} // verus!
