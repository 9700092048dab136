//! Strings as sequences of characters: white space, lines, prefixes, numbers
//! and the order of names.

use vstd::prelude::*;

verus! {

// ---- strings and their characters ----

/// Appends one character to a string. The call is `String::push`, which
/// appends the given char to the end of the string.
#[verifier::external_body]
pub(crate) fn push_char(s: &mut String, c: char)
    ensures
        final(s)@ == old(s)@.push(c),
{
    s.push(c)
}

/// The characters of a string, in order.
pub fn to_chars(s: &str) -> (r: Vec<char>)
    ensures
        r@ == s@,
{
    let mut r: Vec<char> = Vec::new();
    for c in it: s.chars()
        invariant
            it.seq() == s@,
            r@ == s@.take(it.index() as int),
    {
        r.push(c);
    }
    r
}

/// The string made of `chars[from..to]`.
pub fn from_chars(chars: &[char], from: usize, to: usize) -> (r: String)
    requires
        from <= to <= chars@.len(),
    ensures
        r@ == chars@.subrange(from as int, to as int),
{
    let mut r: String = String::new();
    let mut i: usize = from;
    while i < to
        invariant
            from <= i <= to <= chars@.len(),
            r@ == chars@.subrange(from as int, i as int),
        decreases to - i,
    {
        push_char(&mut r, chars[i]);
        i = i + 1;
        assert(r@ =~= chars@.subrange(from as int, i as int));
    }
    r
}

/// Whether two strings hold the same characters.
pub fn same_text(a: &str, b: &str) -> (r: bool)
    ensures
        r == (a@ == b@),
{
    a.to_string() == b.to_string()
}

/// `a` followed by `b`.
pub fn concat(a: &str, b: &str) -> (r: String)
    ensures
        r@ == a@ + b@,
{
    let mut r: String = a.to_string();
    r.append(b);
    r
}

// ---- white space ----

/// The characters with the Unicode property `White_Space`.
pub open spec fn white_space(c: char) -> bool {
    let u = c as u32;
    ||| 0x9 <= u <= 0xd
    ||| u == 0x20
    ||| u == 0x85
    ||| u == 0xa0
    ||| u == 0x1680
    ||| 0x2000 <= u <= 0x200a
    ||| u == 0x2028
    ||| u == 0x2029
    ||| u == 0x202f
    ||| u == 0x205f
    ||| u == 0x3000
}

/// Whether a character is white space.
pub fn is_white_space(c: char) -> (r: bool)
    ensures
        r == white_space(c),
{
    let u: u32 = c as u32;
    (0x9 <= u && u <= 0xd) || u == 0x20 || u == 0x85 || u == 0xa0 || u == 0x1680 || (0x2000 <= u
        && u <= 0x200a) || u == 0x2028 || u == 0x2029 || u == 0x202f || u == 0x205f || u == 0x3000
}

/// `s` without the white space at its end.
pub open spec fn trimmed_end(s: Seq<char>) -> Seq<char>
    decreases s.len(),
{
    if s.len() > 0 && white_space(s.last()) {
        trimmed_end(s.drop_last())
    } else {
        s
    }
}

/// `s` without the white space at its start.
pub open spec fn trimmed_start(s: Seq<char>) -> Seq<char>
    decreases s.len(),
{
    if s.len() > 0 && white_space(s[0]) {
        trimmed_start(s.drop_first())
    } else {
        s
    }
}

/// `s` without the white space at either end.
pub open spec fn trimmed(s: Seq<char>) -> Seq<char> {
    trimmed_end(trimmed_start(s))
}

/// Where the white space at the end of `chars[from..]` begins.
fn end_without_space(chars: &[char], from: usize) -> (to: usize)
    requires
        from <= chars@.len(),
    ensures
        from <= to <= chars@.len(),
        chars@.subrange(from as int, to as int) == trimmed_end(chars@.skip(from as int)),
{
    let mut to: usize = chars.len();
    assert(chars@.subrange(from as int, to as int) =~= chars@.skip(from as int));
    while to > from && is_white_space(chars[to - 1])
        invariant
            from <= to <= chars@.len(),
            trimmed_end(chars@.subrange(from as int, to as int)) == trimmed_end(
                chars@.skip(from as int),
            ),
        decreases to,
    {
        assert(chars@.subrange(from as int, to as int).drop_last() =~= chars@.subrange(
            from as int,
            to - 1,
        ));
        to = to - 1;
    }
    to
}

/// Where the text of `chars[from..]` begins, after any white space.
fn skip_space(chars: &[char], from: usize) -> (at: usize)
    requires
        from <= chars@.len(),
    ensures
        from <= at <= chars@.len(),
        chars@.skip(at as int) == trimmed_start(chars@.skip(from as int)),
        at < chars@.len() ==> !white_space(chars@[at as int]),
{
    let mut at: usize = from;
    while at < chars.len() && is_white_space(chars[at])
        invariant
            from <= at <= chars@.len(),
            trimmed_start(chars@.skip(at as int)) == trimmed_start(chars@.skip(from as int)),
        decreases chars@.len() - at,
    {
        assert(chars@.skip(at as int).drop_first() =~= chars@.skip(at + 1));
        at = at + 1;
    }
    at
}

/// A string without the white space at its end.
pub fn trim_end(s: &str) -> (r: String)
    ensures
        r@ == trimmed_end(s@),
{
    let chars: Vec<char> = to_chars(s);
    let to: usize = end_without_space(&chars, 0);
    assert(s@.skip(0) =~= s@);
    from_chars(&chars, 0, to)
}

/// A string without the white space at either end.
pub fn trim(s: &str) -> (r: String)
    ensures
        r@ == trimmed(s@),
{
    let chars: Vec<char> = to_chars(s);
    assert(s@.skip(0) =~= s@);
    let from: usize = skip_space(&chars, 0);
    let to: usize = end_without_space(&chars, from);
    from_chars(&chars, from, to)
}

// ---- lines ----

/// Where `c` first occurs in `s`; the length of `s` if it does not.
pub open spec fn first_index(s: Seq<char>, c: char) -> int
    decreases s.len(),
{
    if s.len() == 0 || s[0] == c {
        0
    } else {
        1 + first_index(s.drop_first(), c)
    }
}

/// A line that was ended by a newline, without a carriage return before it.
pub open spec fn without_return(s: Seq<char>) -> Seq<char> {
    if s.len() > 0 && s.last() == '\r' {
        s.drop_last()
    } else {
        s
    }
}

/// The lines of a text. A line ends at a newline, with or without a carriage
/// return before it; the ending of the last line is optional.
pub open spec fn lines_of(text: Seq<char>) -> Seq<Seq<char>>
    decreases text.len(),
    via lines_of_shrinks
{
    let end = first_index(text, '\n');
    if text.len() == 0 {
        Seq::empty()
    } else if end >= text.len() {
        seq![text]
    } else {
        seq![without_return(text.take(end))] + lines_of(text.skip(end + 1))
    }
}

#[via_fn]
proof fn lines_of_shrinks(text: Seq<char>) {
    lemma_first_index(text, '\n');
}

/// [`first_index`] is the first index.
pub proof fn lemma_first_index(s: Seq<char>, c: char)
    ensures
        0 <= first_index(s, c) <= s.len(),
        first_index(s, c) < s.len() ==> s[first_index(s, c)] == c,
        forall|i: int| 0 <= i < first_index(s, c) ==> s[i] != c,
    decreases s.len(),
{
    if s.len() > 0 && s[0] != c {
        lemma_first_index(s.drop_first(), c);
        assert forall|i: int| 0 <= i < first_index(s, c) implies s[i] != c by {
            if i > 0 {
                assert(s.drop_first()[i - 1] == s[i]);
            }
        }
    }
}

proof fn lemma_first_index_is(s: Seq<char>, c: char, k: int)
    requires
        0 <= k <= s.len(),
        k < s.len() ==> s[k] == c,
        forall|i: int| 0 <= i < k ==> s[i] != c,
    ensures
        first_index(s, c) == k,
    decreases s.len(),
{
    if k > 0 {
        assert forall|i: int| 0 <= i < k - 1 implies s.drop_first()[i] != c by {
            assert(s[i + 1] != c);
        }
        lemma_first_index_is(s.drop_first(), c, k - 1);
    }
}

/// The texts of a list of strings.
pub open spec fn texts(lines: Seq<String>) -> Seq<Seq<char>> {
    Seq::new(lines.len(), |i: int| lines[i]@)
}

/// Adding a string to a list adds its text to the texts.
pub proof fn lemma_texts_push(lines: Seq<String>, s: String)
    ensures
        texts(lines.push(s)) == texts(lines).push(s@),
{
    assert(texts(lines.push(s)) =~= texts(lines).push(s@));
}

/// The lines of a text.
pub fn split_lines(text: &str) -> (r: Vec<String>)
    ensures
        texts(r@) == lines_of(text@),
{
    let chars: Vec<char> = to_chars(text);
    let mut r: Vec<String> = Vec::new();
    let mut start: usize = 0;
    let mut i: usize = 0;
    assert(text@.skip(0) =~= text@);
    assert(texts(r@) + lines_of(text@) =~= lines_of(text@));
    while i < chars.len()
        invariant
            start <= i <= chars@.len(),
            chars@ == text@,
            forall|j: int| start <= j < i ==> chars@[j] != '\n',
            texts(r@) + lines_of(text@.skip(start as int)) == lines_of(text@),
        decreases chars@.len() - i,
    {
        if chars[i] == '\n' {
            let end: usize = if i > start && chars[i - 1] == '\r' {
                i - 1
            } else {
                i
            };
            let line: String = from_chars(&chars, start, end);
            proof {
                let rest = text@.skip(start as int);
                lemma_first_index_is(rest, '\n', i - start);
                assert(rest.take(i - start) =~= chars@.subrange(start as int, i as int));
                assert(line@ =~= without_return(rest.take(i - start)));
                assert(rest.skip(i - start + 1) =~= text@.skip(i + 1));
                lemma_texts_push(r@, line);
                assert(texts(r@) + (seq![line@] + lines_of(text@.skip(i + 1))) =~= texts(
                    r@,
                ).push(line@) + lines_of(text@.skip(i + 1)));
            }
            r.push(line);
            start = i + 1;
        }
        i = i + 1;
    }
    proof {
        lemma_first_index_is(text@.skip(start as int), '\n', i - start);
    }
    if start < chars.len() {
        let line: String = from_chars(&chars, start, chars.len());
        proof {
            lemma_texts_push(r@, line);
            assert(line@ =~= text@.skip(start as int));
            assert(texts(r@) + seq![line@] =~= texts(r@).push(line@));
        }
        r.push(line);
    } else {
        assert(texts(r@) + Seq::<Seq<char>>::empty() =~= texts(r@));
    }
    r
}

/// The parts of a list, with `separator` between each two.
pub open spec fn joined(parts: Seq<Seq<char>>, separator: Seq<char>) -> Seq<char>
    decreases parts.len(),
{
    if parts.len() == 0 {
        Seq::empty()
    } else if parts.len() == 1 {
        parts[0]
    } else {
        joined(parts.drop_last(), separator) + separator + parts.last()
    }
}

/// Joins a list of strings with a separator between each two.
pub fn join(parts: &[String], separator: &str) -> (r: String)
    ensures
        r@ == joined(texts(parts@), separator@),
{
    let mut r: String = String::new();
    let mut i: usize = 0;
    while i < parts.len()
        invariant
            i <= parts@.len(),
            r@ == joined(texts(parts@).take(i as int), separator@),
        decreases parts@.len() - i,
    {
        proof {
            let all = texts(parts@);
            assert(all.take(i + 1).drop_last() =~= all.take(i as int));
            assert(all.take(i + 1).last() == parts@[i as int]@);
        }
        if i > 0 {
            r.append(separator);
        }
        r.append(&parts[i]);
        i = i + 1;
        assert(i == 1 ==> r@ =~= texts(parts@).take(1)[0]);
    }
    assert(texts(parts@).take(i as int) =~= texts(parts@));
    r
}

// ---- prefixes and substrings ----

/// Whether `s` begins with `prefix`.
pub fn starts_with(s: &[char], prefix: &str) -> (r: bool)
    ensures
        r == prefix@.is_prefix_of(s@),
{
    let mut i: usize = 0;
    let wanted: Vec<char> = to_chars(prefix);
    if wanted.len() > s.len() {
        return false;
    }
    while i < wanted.len()
        invariant
            wanted@ == prefix@,
            i <= wanted@.len() <= s@.len(),
            forall|j: int| 0 <= j < i ==> s@[j] == wanted@[j],
        decreases wanted@.len() - i,
    {
        if s[i] != wanted[i] {
            assert(prefix@ != s@.subrange(0, prefix@.len() as int)) by {
                assert(s@.subrange(0, prefix@.len() as int)[i as int] == s@[i as int]);
            }
            return false;
        }
        i = i + 1;
    }
    assert(prefix@ =~= s@.subrange(0, prefix@.len() as int));
    true
}

/// `part` stands in `s` at index `i`.
pub open spec fn occurs_at(s: Seq<char>, part: Seq<char>, i: int) -> bool {
    0 <= i && i + part.len() <= s.len() && s.subrange(i, i + part.len()) == part
}

/// `part` stands somewhere in `s`.
pub open spec fn occurs(s: Seq<char>, part: Seq<char>) -> bool {
    exists|i: int| occurs_at(s, part, i)
}

fn occurs_here(s: &[char], part: &[char], i: usize) -> (r: bool)
    requires
        i <= s@.len(),
    ensures
        r == occurs_at(s@, part@, i as int),
{
    if part.len() > s.len() - i {
        return false;
    }
    let len: usize = s.len();
    let mut k: usize = 0;
    while k < part.len()
        invariant
            i + part@.len() <= len == s@.len(),
            k <= part@.len(),
            forall|j: int| 0 <= j < k ==> s@[i + j] == part@[j],
        decreases part@.len() - k,
    {
        if s[i + k] != part[k] {
            assert(s@.subrange(i as int, i + part@.len())[k as int] == s@[i + k]);
            return false;
        }
        k = k + 1;
    }
    assert(s@.subrange(i as int, i + part@.len()) =~= part@);
    true
}

/// The first index at or after `from` at which `part` stands in `s`.
pub fn find(s: &[char], part: &[char], from: usize) -> (r: Option<usize>)
    requires
        from <= s@.len(),
    ensures
        match r {
            Some(i) => from <= i && occurs_at(s@, part@, i as int) && forall|j: int|
                from <= j < i ==> !occurs_at(s@, part@, j),
            None => forall|j: int| from <= j ==> !occurs_at(s@, part@, j),
        },
{
    let mut i: usize = from;
    loop
        invariant
            from <= i <= s@.len(),
            forall|j: int| from <= j < i ==> !occurs_at(s@, part@, j),
        decreases s@.len() - i,
    {
        if occurs_here(s, part, i) {
            return Some(i);
        }
        if i == s.len() {
            return None;
        }
        i = i + 1;
    }
}

/// Whether `part` stands somewhere in `s`.
pub fn contains(s: &str, part: &str) -> (r: bool)
    ensures
        r == occurs(s@, part@),
{
    let chars: Vec<char> = to_chars(s);
    let wanted: Vec<char> = to_chars(part);
    match find(&chars, &wanted, 0) {
        Some(i) => {
            assert(occurs_at(s@, part@, i as int));
            true
        },
        None => {
            assert forall|i: int| !occurs_at(s@, part@, i) by {
                if i >= 0 {
                    assert(!occurs_at(chars@, wanted@, i));
                }
            }
            false
        },
    }
}

/// How many characters stand before the first white space of `s`.
pub open spec fn word_len(s: Seq<char>) -> nat
    decreases s.len(),
{
    if s.len() == 0 || white_space(s[0]) {
        0
    } else {
        1 + word_len(s.drop_first())
    }
}

proof fn lemma_word_len(s: Seq<char>, k: int)
    requires
        0 <= k <= s.len(),
        forall|i: int| 0 <= i < k ==> !white_space(s[i]),
        k < s.len() ==> white_space(s[k]),
    ensures
        word_len(s) == k,
    decreases s.len(),
{
    if k > 0 {
        assert forall|i: int| 0 <= i < k - 1 implies !white_space(s.drop_first()[i]) by {
            assert(!white_space(s[i + 1]));
        }
        lemma_word_len(s.drop_first(), k - 1);
    }
}

proof fn lemma_trimmed_start_len(s: Seq<char>)
    ensures
        trimmed_start(s).len() <= s.len(),
        trimmed_start(s).len() > 0 ==> !white_space(trimmed_start(s)[0]),
    decreases s.len(),
{
    if s.len() > 0 && white_space(s[0]) {
        lemma_trimmed_start_len(s.drop_first());
    }
}

/// The words of a text: its longest runs without white space.
pub open spec fn words_of(s: Seq<char>) -> Seq<Seq<char>>
    decreases s.len(),
    via words_of_shrinks
{
    let t = trimmed_start(s);
    if t.len() == 0 {
        Seq::empty()
    } else {
        seq![t.take(word_len(t) as int)] + words_of(t.skip(word_len(t) as int))
    }
}

#[via_fn]
proof fn words_of_shrinks(s: Seq<char>) {
    lemma_trimmed_start_len(s);
    let t = trimmed_start(s);
    if t.len() > 0 {
        lemma_word_len_bound(t);
    }
}

proof fn lemma_word_len_bound(s: Seq<char>)
    ensures
        word_len(s) <= s.len(),
        s.len() > 0 && !white_space(s[0]) ==> word_len(s) > 0,
    decreases s.len(),
{
    if s.len() > 0 && !white_space(s[0]) {
        lemma_word_len_bound(s.drop_first());
    }
}

/// The words of a text.
pub fn split_words(text: &str) -> (r: Vec<String>)
    ensures
        texts(r@) == words_of(text@),
{
    let chars: Vec<char> = to_chars(text);
    let mut r: Vec<String> = Vec::new();
    let mut at: usize = 0;
    assert(text@.skip(0) =~= text@);
    assert(texts(r@) + words_of(text@) =~= words_of(text@));
    loop
        invariant
            at <= chars@.len(),
            chars@ == text@,
            texts(r@) + words_of(text@.skip(at as int)) == words_of(text@),
        decreases chars@.len() - at,
    {
        let from: usize = skip_space(&chars, at);
        if from == chars.len() {
            assert(texts(r@) + Seq::<Seq<char>>::empty() =~= texts(r@));
            return r;
        }
        let mut to: usize = from;
        while to < chars.len() && !is_white_space(chars[to])
            invariant
                from <= to <= chars@.len(),
                forall|i: int| from <= i < to ==> !white_space(chars@[i]),
            decreases chars@.len() - to,
        {
            to = to + 1;
        }
        let word: String = from_chars(&chars, from, to);
        proof {
            let t = chars@.skip(from as int);
            lemma_word_len(t, to - from);
            assert(t.take(to - from) =~= word@);
            assert(t.skip(to - from) =~= text@.skip(to as int));
            lemma_texts_push(r@, word);
            assert(texts(r@) + (seq![word@] + words_of(text@.skip(to as int))) =~= texts(r@).push(
                word@,
            ) + words_of(text@.skip(to as int)));
        }
        r.push(word);
        at = to;
    }
}

// ---- numbers ----

/// A decimal digit of ASCII.
pub open spec fn is_digit(c: char) -> bool {
    48 <= c as u32 <= 57
}

/// Every character is a decimal digit of ASCII.
pub open spec fn all_digits(s: Seq<char>) -> bool {
    forall|i: int| 0 <= i < s.len() ==> is_digit(#[trigger] s[i])
}

/// The number that a string of digits stands for.
pub open spec fn digits_value(s: Seq<char>) -> nat
    decreases s.len(),
{
    if s.len() == 0 {
        0
    } else {
        digits_value(s.drop_last()) * 10 + (s.last() as u32 - 48) as nat
    }
}

/// The digits of a number: `s` without a plus sign at its start.
pub open spec fn unsigned(s: Seq<char>) -> Seq<char> {
    if s.len() > 0 && s[0] == '+' {
        s.skip(1)
    } else {
        s
    }
}

/// The number that `s` reads as: at least one digit, with an optional plus
/// sign before them, and no more than a `usize` holds.
pub open spec fn number_of(s: Seq<char>) -> Option<usize> {
    let d = unsigned(s);
    if d.len() > 0 && all_digits(d) && digits_value(d) <= usize::MAX {
        Some(digits_value(d) as usize)
    } else {
        None
    }
}

proof fn lemma_digits_grow(s: Seq<char>, k: int)
    requires
        all_digits(s),
        0 <= k <= s.len(),
    ensures
        digits_value(s.take(k)) <= digits_value(s),
    decreases s.len(),
{
    if k == s.len() {
        assert(s.take(k) =~= s);
    } else {
        assert(s.drop_last().take(k) =~= s.take(k));
        lemma_digits_grow(s.drop_last(), k);
    }
}

/// Reads a number.
pub fn parse_number(s: &str) -> (r: Option<usize>)
    ensures
        r == number_of(s@),
{
    let chars: Vec<char> = to_chars(s);
    let from: usize = if chars.len() > 0 && chars[0] == '+' {
        1
    } else {
        0
    };
    let ghost d = unsigned(s@);
    assert(d =~= s@.skip(from as int));
    if from == chars.len() {
        return None;
    }
    let mut i: usize = from;
    let mut value: usize = 0;
    assert(d.take(0) =~= Seq::<char>::empty());
    while i < chars.len()
        invariant
            from <= i <= chars@.len(),
            chars@ == s@,
            d == s@.skip(from as int),
            d == unsigned(s@),
            forall|j: int| from <= j < i ==> is_digit(chars@[j]),
            value == digits_value(d.take(i - from)),
        decreases chars@.len() - i,
    {
        let u: u32 = chars[i] as u32;
        assert(d[i - from] == chars@[i as int]);
        if u < 48 || u > 57 {
            return None;
        }
        let digit: usize = (u - 48) as usize;
        proof {
            assert(d.take(i - from + 1).drop_last() =~= d.take(i - from));
            assert(d.take(i - from + 1).last() == chars@[i as int]);
        }
        let next: Option<usize> = match value.checked_mul(10) {
            Some(v) => v.checked_add(digit),
            None => None,
        };
        match next {
            Some(v) => {
                value = v;
            },
            None => {
                proof {
                    if all_digits(d) {
                        lemma_digits_grow(d, i - from + 1);
                    }
                }
                return None;
            },
        }
        i = i + 1;
    }
    assert(d.take(i - from) =~= d);
    assert(all_digits(d));
    Some(value)
}

/// The decimal numeral of a number.
pub open spec fn numeral(n: nat) -> Seq<char>
    decreases n,
{
    if n < 10 {
        seq![(48 + n) as char]
    } else {
        numeral(n / 10).push((48 + n % 10) as char)
    }
}

/// Writes a number in decimal.
pub fn decimal(n: usize) -> (r: String)
    ensures
        r@ == numeral(n as nat),
    decreases n,
{
    let digit: char = (48 + (n % 10) as u8) as char;
    let mut r: String = if n < 10 {
        String::new()
    } else {
        decimal(n / 10)
    };
    push_char(&mut r, digit);
    assert(n < 10 ==> r@ =~= seq![digit]);
    r
}

// ---- the order of names ----

/// `a` comes before `b` in the order of strings: by the first character in
/// which they differ, a string before its extensions.
pub open spec fn precedes(a: Seq<char>, b: Seq<char>) -> bool
    decreases a.len(),
{
    if b.len() == 0 {
        false
    } else if a.len() == 0 {
        true
    } else if a[0] != b[0] {
        (a[0] as int) < (b[0] as int)
    } else {
        precedes(a.drop_first(), b.drop_first())
    }
}

/// Of two different strings exactly one comes first.
pub proof fn lemma_precedes_total(a: Seq<char>, b: Seq<char>)
    ensures
        a != b ==> (precedes(a, b) <==> !precedes(b, a)),
        a == b ==> !precedes(a, b),
    decreases a.len(),
{
    if a.len() > 0 && b.len() > 0 {
        lemma_precedes_total(a.drop_first(), b.drop_first());
        if a[0] == b[0] && a.drop_first() == b.drop_first() {
            assert(a =~= seq![a[0]] + a.drop_first());
            assert(b =~= seq![b[0]] + b.drop_first());
        }
    } else if a.len() == 0 && b.len() == 0 {
        assert(a =~= b);
    }
}

/// The order of strings is transitive.
pub proof fn lemma_precedes_transitive(a: Seq<char>, b: Seq<char>, c: Seq<char>)
    requires
        precedes(a, b),
        precedes(b, c),
    ensures
        precedes(a, c),
    decreases a.len(),
{
    if a.len() > 0 && a[0] == b[0] && b[0] == c[0] {
        lemma_precedes_transitive(a.drop_first(), b.drop_first(), c.drop_first());
    }
}

/// Every character code fits a `u32`.
proof fn lemma_char_code(c: char)
    ensures
        c as u32 == c as int,
{
}

/// Whether `a` comes before `b` in the order of strings.
pub fn text_precedes(a: &str, b: &str) -> (r: bool)
    ensures
        r == precedes(a@, b@),
{
    let x: Vec<char> = to_chars(a);
    let y: Vec<char> = to_chars(b);
    let mut i: usize = 0;
    assert(a@.skip(0) =~= a@);
    assert(b@.skip(0) =~= b@);
    while i < x.len() && i < y.len()
        invariant
            x@ == a@,
            y@ == b@,
            i <= x@.len(),
            i <= y@.len(),
            precedes(a@.skip(i as int), b@.skip(i as int)) == precedes(a@, b@),
        decreases x@.len() - i,
    {
        let p: char = x[i];
        let q: char = y[i];
        if p != q {
            proof {
                lemma_char_code(p);
                lemma_char_code(q);
            }
            return (p as u32) < (q as u32);
        }
        assert(a@.skip(i as int).drop_first() =~= a@.skip(i + 1));
        assert(b@.skip(i as int).drop_first() =~= b@.skip(i + 1));
        i = i + 1;
    }
    i < y.len()
}

} // verus!
