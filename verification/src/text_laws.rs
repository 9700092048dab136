//! What holds of lines, words, numbers and the order of names.

use vstd::prelude::*;

use crate::text::{
    all_digits, digits_value, first_index, is_digit, joined, lemma_first_index, lines_of, number_of,
    numeral, occurs, occurs_at, precedes, texts, trimmed, trimmed_end, trimmed_start, white_space,
    word_len, words_of,
};

verus! {

// ---- white space ----

/// White space is the characters from the tab to the carriage return, the
/// space, and those that Unicode adds to them.
pub proof fn white_space_is_unicode(c: char)
    ensures
        white_space(c) <==> seq![
            '\t',
            '\n',
            '\u{b}',
            '\u{c}',
            '\r',
            ' ',
            '\u{85}',
            '\u{a0}',
            '\u{1680}',
            '\u{2000}',
            '\u{2001}',
            '\u{2002}',
            '\u{2003}',
            '\u{2004}',
            '\u{2005}',
            '\u{2006}',
            '\u{2007}',
            '\u{2008}',
            '\u{2009}',
            '\u{200a}',
            '\u{2028}',
            '\u{2029}',
            '\u{202f}',
            '\u{205f}',
            '\u{3000}',
        ].contains(c),
{
    let all = seq![
        '\t',
        '\n',
        '\u{b}',
        '\u{c}',
        '\r',
        ' ',
        '\u{85}',
        '\u{a0}',
        '\u{1680}',
        '\u{2000}',
        '\u{2001}',
        '\u{2002}',
        '\u{2003}',
        '\u{2004}',
        '\u{2005}',
        '\u{2006}',
        '\u{2007}',
        '\u{2008}',
        '\u{2009}',
        '\u{200a}',
        '\u{2028}',
        '\u{2029}',
        '\u{202f}',
        '\u{205f}',
        '\u{3000}',
    ];
    let u = c as u32;
    if white_space(c) {
        let i: int = if 0x9 <= u <= 0xd {
            u - 0x9
        } else if u == 0x20 {
            5
        } else if u == 0x85 {
            6
        } else if u == 0xa0 {
            7
        } else if u == 0x1680 {
            8
        } else if 0x2000 <= u <= 0x200a {
            9 + (u - 0x2000)
        } else if u == 0x2028 {
            20
        } else if u == 0x2029 {
            21
        } else if u == 0x202f {
            22
        } else if u == 0x205f {
            23
        } else {
            24
        };
        assert(all[i] == c);
    }
    if all.contains(c) {
        let i = choose|i: int| 0 <= i < all.len() && all[i] == c;
    }
}

/// Every character of a text is white space.
pub open spec fn is_blank(s: Seq<char>) -> bool {
    forall|i: int| 0 <= i < s.len() ==> white_space(#[trigger] s[i])
}

/// What is trimmed off the end of a text is white space, and what is left does
/// not end in any.
pub proof fn trimming_takes_off_the_end(s: Seq<char>)
    ensures
        trimmed_end(s).is_prefix_of(s),
        is_blank(s.skip(trimmed_end(s).len() as int)),
        trimmed_end(s).len() > 0 ==> !white_space(trimmed_end(s).last()),
    decreases s.len(),
{
    if s.len() > 0 && white_space(s.last()) {
        let front = s.drop_last();
        trimming_takes_off_the_end(front);
        let t = trimmed_end(front);
        assert(t =~= s.subrange(0, t.len() as int)) by {
            assert(t == front.subrange(0, t.len() as int));
        }
        assert forall|i: int| 0 <= i < s.skip(t.len() as int).len() implies white_space(
            #[trigger] s.skip(t.len() as int)[i],
        ) by {
            if i < front.len() - t.len() {
                assert(front.skip(t.len() as int)[i] == s[t.len() + i]);
            }
        }
    } else {
        assert(s.subrange(0, s.len() as int) =~= s);
    }
}

/// What is trimmed off the start of a text is white space, and what is left
/// does not begin with any.
pub proof fn trimming_takes_off_the_start(s: Seq<char>)
    ensures
        trimmed_start(s).len() <= s.len(),
        trimmed_start(s) == s.skip(s.len() - trimmed_start(s).len()),
        is_blank(s.take(s.len() - trimmed_start(s).len())),
        trimmed_start(s).len() > 0 ==> !white_space(trimmed_start(s)[0]),
    decreases s.len(),
{
    if s.len() > 0 && white_space(s[0]) {
        let rest = s.drop_first();
        trimming_takes_off_the_start(rest);
        let t = trimmed_start(rest);
        let k = s.len() - t.len();
        assert(t =~= s.skip(k));
        assert forall|i: int| 0 <= i < s.take(k).len() implies white_space(
            #[trigger] s.take(k)[i],
        ) by {
            if i > 0 {
                assert(rest.take(rest.len() - t.len())[i - 1] == s[i]);
            }
        }
    } else {
        assert(s.skip(0) =~= s);
    }
}

/// A text is white space, what is left when it is trimmed, and white space
/// again; and nothing is left that begins or ends in white space.
pub proof fn trimming_leaves_the_middle(s: Seq<char>)
    ensures
        exists|a: Seq<char>, b: Seq<char>|
            is_blank(a) && is_blank(b) && s == #[trigger] (a + trimmed(s) + b),
        trimmed(s).len() > 0 ==> !white_space(trimmed(s)[0]) && !white_space(trimmed(s).last()),
{
    let t = trimmed_start(s);
    trimming_takes_off_the_start(s);
    trimming_takes_off_the_end(t);
    let a = s.take(s.len() - t.len());
    let b = t.skip(trimmed(s).len() as int);
    assert(trimmed(s) == t.subrange(0, trimmed(s).len() as int));
    assert(s =~= a + trimmed(s) + b);
    if trimmed(s).len() > 0 {
        assert(trimmed(s)[0] == t[0]);
    }
}

/// White space around a text is of no account, and a text without any around it
/// stays as it is.
pub proof fn trimming_undoes_padding(a: Seq<char>, s: Seq<char>, b: Seq<char>)
    requires
        is_blank(a),
        is_blank(b),
        s.len() > 0 ==> !white_space(s[0]) && !white_space(s.last()),
    ensures
        trimmed(a + s + b) == s,
{
    let t = a + s + b;
    trimming_leaves_the_middle(t);
    let m = trimmed(t);
    let (x, y) = choose|x: Seq<char>, y: Seq<char>|
        is_blank(x) && is_blank(y) && t == #[trigger] (x + m + y);
    if s.len() > 0 {
        assert(t[a.len() as int] == s[0]);
        assert(t[a.len() + s.len() - 1] == s.last());
        if m.len() == 0 {
            if a.len() < x.len() {
                assert(x[a.len() as int] == t[a.len() as int]);
            } else {
                assert(y[a.len() - x.len()] == t[a.len() as int]);
            }
        }
        assert(t[x.len() as int] == m[0]);
        assert(t[x.len() + m.len() - 1] == m.last());
        if a.len() < x.len() {
            assert(x[a.len() as int] == s[0]);
        }
        if x.len() < a.len() {
            assert(a[x.len() as int] == m[0]);
        }
        if a.len() + s.len() < x.len() + m.len() {
            let i = x.len() + m.len() - 1;
            assert(b[i - a.len() - s.len()] == t[i]);
        }
        if x.len() + m.len() < a.len() + s.len() {
            let i = a.len() + s.len() - 1;
            assert(y[i - x.len() - m.len()] == t[i]);
        }
        assert(m =~= t.subrange(a.len() as int, (a.len() + s.len()) as int));
        assert(s =~= t.subrange(a.len() as int, (a.len() + s.len()) as int));
    } else {
        if m.len() > 0 {
            assert(t[x.len() as int] == m[0]);
            if x.len() < a.len() {
                assert(a[x.len() as int] == m[0]);
            } else {
                assert(b[x.len() - a.len()] == m[0]);
            }
        }
        assert(m =~= s);
    }
}

// ---- lines ----

proof fn lemma_first_is(s: Seq<char>, c: char, k: int)
    requires
        0 <= k <= s.len(),
        k < s.len() ==> s[k] == c,
        forall|i: int| 0 <= i < k ==> s[i] != c,
    ensures
        first_index(s, c) == k,
{
    lemma_first_index(s, c);
}

/// A newline ends a line, with or without a carriage return before it, which
/// does not belong to the line. A text that does not end in a newline ends in a
/// line; an empty one has none.
pub proof fn newlines_end_lines(line: Seq<char>, rest: Seq<char>)
    requires
        !line.contains('\n'),
    ensures
        line.len() == 0 || line.last() != '\r' ==> lines_of(line + seq!['\n'] + rest) == seq![line]
            + lines_of(rest),
        lines_of(line + seq!['\r', '\n'] + rest) == seq![line] + lines_of(rest),
        line.len() > 0 ==> lines_of(line) == seq![line],
        lines_of(Seq::empty()) == Seq::<Seq<char>>::empty(),
{
    assert forall|i: int| 0 <= i < line.len() implies line[i] != '\n' by {
        assert(line.contains(line[i]));
    }
    let n = line.len() as int;
    let one = line + seq!['\n'] + rest;
    lemma_first_is(one, '\n', n);
    assert(one.take(n) =~= line);
    assert(one.skip(n + 1) =~= rest);
    let two = line + seq!['\r', '\n'] + rest;
    lemma_first_is(two, '\n', n + 1);
    assert(two.take(n + 1) =~= line.push('\r'));
    assert(line.push('\r').drop_last() =~= line);
    assert(two.skip(n + 2) =~= rest);
    lemma_first_is(line, '\n', n);
}

/// Texts are joined with the separator between each two and nowhere else.
pub proof fn joining_puts_separators_between(
    a: Seq<Seq<char>>,
    b: Seq<Seq<char>>,
    part: Seq<char>,
    separator: Seq<char>,
)
    ensures
        joined(Seq::empty(), separator) == Seq::<char>::empty(),
        joined(seq![part], separator) == part,
        a.len() > 0 && b.len() > 0 ==> joined(a + b, separator) == joined(a, separator) + separator
            + joined(b, separator),
    decreases b.len(),
{
    if a.len() > 0 && b.len() > 0 {
        let front = b.drop_last();
        assert((a + b).drop_last() =~= a + front);
        assert((a + b).last() == b.last());
        if front.len() > 0 {
            joining_puts_separators_between(a, front, part, separator);
            assert(joined(a + b, separator) =~= joined(a, separator) + separator + joined(
                b,
                separator,
            ));
        } else {
            assert(a + front =~= a);
            assert(b[0] == b.last());
        }
    }
}

/// The texts of a list of strings are those of its strings, in their order.
pub proof fn texts_are_those_of_the_strings(lines: Seq<String>)
    ensures
        texts(lines).len() == lines.len(),
        forall|i: int| 0 <= i < lines.len() ==> #[trigger] texts(lines)[i] == lines[i]@,
{
}

/// A text occurs in another that is made of it and something before and behind
/// it.
pub proof fn occurring_is_standing_between(s: Seq<char>, part: Seq<char>)
    ensures
        occurs(s, part) <==> exists|a: Seq<char>, b: Seq<char>| s == #[trigger] (a + part + b),
{
    if occurs(s, part) {
        let i = choose|i: int| occurs_at(s, part, i);
        assert(s =~= s.take(i) + part + s.skip(i + part.len())) by {
            assert(s.subrange(i, i + part.len()) == part);
        }
    }
    if exists|a: Seq<char>, b: Seq<char>| s == #[trigger] (a + part + b) {
        let (a, b) = choose|a: Seq<char>, b: Seq<char>| s == #[trigger] (a + part + b);
        let i = a.len() as int;
        assert(s.subrange(i, i + part.len()) =~= part);
        assert(occurs_at(s, part, i));
    }
}

// ---- words ----

proof fn lemma_word_len_is(s: Seq<char>, k: int)
    requires
        0 <= k <= s.len(),
        forall|i: int| 0 <= i < k ==> !white_space(s[i]),
        k < s.len() ==> white_space(s[k]),
    ensures
        word_len(s) == k,
    decreases s.len(),
{
    if k > 0 {
        assert forall|i: int| 0 <= i < k - 1 implies !white_space(s.drop_first()[i]) by {
            assert(!white_space(s[i + 1]));
        }
        lemma_word_len_is(s.drop_first(), k - 1);
    }
}

/// White space parts words, and belongs to none.
pub proof fn white_space_parts_words(word: Seq<char>, c: char, rest: Seq<char>)
    requires
        white_space(c),
        forall|i: int| 0 <= i < word.len() ==> !white_space(word[i]),
    ensures
        words_of(Seq::empty()) == Seq::<Seq<char>>::empty(),
        words_of(seq![c] + rest) == words_of(rest),
        word.len() > 0 ==> words_of(word + seq![c] + rest) == seq![word] + words_of(rest),
        word.len() > 0 ==> words_of(word) == seq![word],
{
    let s = seq![c] + rest;
    assert(s.drop_first() =~= rest);
    assert(trimmed_start(s) == trimmed_start(rest));
    assert(words_of(s) == words_of(rest)) by {
        lemma_words_trimmed(rest);
        lemma_words_trimmed(s);
    }
    if word.len() > 0 {
        let t = word + seq![c] + rest;
        let n = word.len() as int;
        assert(!white_space(word[0]));
        lemma_word_len_is(t, n);
        assert(t.take(n) =~= word);
        assert(t.skip(n) =~= s);
        lemma_word_len_is(word, n);
        assert(word.take(n) =~= word);
        assert(word.skip(n) =~= Seq::<char>::empty());
        assert(trimmed_start(word) == word);
        assert(words_of(word.skip(n)) =~= Seq::<Seq<char>>::empty());
        assert(seq![word] + Seq::<Seq<char>>::empty() =~= seq![word]);
    }
}

proof fn lemma_words_trimmed(s: Seq<char>)
    ensures
        words_of(s) == words_of(trimmed_start(s)),
{
    trimming_takes_off_the_start(s);
    assert(trimmed_start(trimmed_start(s)) == trimmed_start(s));
}

// ---- numbers ----

/// Ten to the power of a number.
pub open spec fn ten_to(n: nat) -> nat
    decreases n,
{
    if n == 0 {
        1
    } else {
        10 * ten_to((n - 1) as nat)
    }
}

/// Digits count by their places: each one ten times as much as the next.
pub proof fn digits_count_by_their_places(a: Seq<char>, b: Seq<char>, c: char)
    requires
        '0' <= c <= '9',
        all_digits(b),
    ensures
        digits_value(seq![c]) == c as int - '0' as int,
        digits_value(a + b) == digits_value(a) * ten_to(b.len()) + digits_value(b),
    decreases b.len(),
{
    assert(seq![c].drop_last() =~= Seq::<char>::empty());
    reveal_with_fuel(digits_value, 2);
    if b.len() == 0 {
        assert(a + b =~= a);
        assert(ten_to(b.len()) == 1);
        assert(digits_value(a) * 1 == digits_value(a));
    } else {
        let front = b.drop_last();
        assert((a + b).drop_last() =~= a + front);
        assert((a + b).last() == b.last());
        assert(all_digits(front)) by {
            assert forall|i: int| 0 <= i < front.len() implies is_digit(#[trigger] front[i]) by {
                assert(front[i] == b[i]);
            }
        }
        digits_count_by_their_places(a, front, c);
        let x = digits_value(a);
        let p = ten_to(front.len());
        let y = digits_value(front);
        let d = (b.last() as u32 - 48) as nat;
        assert(ten_to(b.len()) == 10 * p);
        assert(digits_value(b) == y * 10 + d);
        assert(digits_value(a + b) == digits_value(a + front) * 10 + d);
        assert((x * p + y) * 10 + d == x * (10 * p) + (y * 10 + d)) by (nonlinear_arith);
    }
}

/// A number is read back as it is written, with a plus sign and zeros before it
/// too; and only digits make a number, at least one and no more than fit.
pub proof fn numbers_are_read_as_written(n: nat, d: Seq<char>)
    ensures
        n <= usize::MAX ==> number_of(numeral(n)) == Some(n as usize),
        n <= usize::MAX ==> number_of(seq!['+'] + numeral(n)) == Some(n as usize),
        d.len() > 0 && all_digits(d) && digits_value(d) <= usize::MAX ==> number_of(d) == Some(
            digits_value(d) as usize,
        ),
        d.len() > 0 && all_digits(d) && digits_value(d) > usize::MAX ==> number_of(d) is None,
        d.len() > 0 && all_digits(d) ==> number_of(seq!['+'] + d) == number_of(d),
        number_of(Seq::empty()) is None,
        number_of(seq!['+']) is None,
        (exists|i: int| 1 <= i < d.len() && !('0' <= #[trigger] d[i] <= '9')) ==> number_of(d)
            is None,
        d.len() > 0 && d[0] != '+' && !('0' <= d[0] <= '9') ==> number_of(d) is None,
{
    numerals_are_decimal(n);
    let m = numeral(n);
    assert(is_digit(m[0]));
    assert((seq!['+'] + m).skip(1) =~= m);
    assert(seq!['+'].skip(1) =~= Seq::<char>::empty());
    assert((seq!['+'] + d).skip(1) =~= d);
    if d.len() > 0 && all_digits(d) {
        assert(is_digit(d[0]));
    }
    if exists|i: int| 1 <= i < d.len() && !('0' <= #[trigger] d[i] <= '9') {
        let i = choose|i: int| 1 <= i < d.len() && !('0' <= #[trigger] d[i] <= '9');
        lemma_digit(d[i]);
        if d[0] == '+' {
            assert(d.skip(1)[i - 1] == d[i]);
            assert(!is_digit(d.skip(1)[i - 1]));
        } else {
            assert(!is_digit(d[i]));
        }
    }
    if d.len() > 0 && d[0] != '+' && !('0' <= d[0] <= '9') {
        lemma_digit(d[0]);
        assert(!is_digit(d[0]));
    }
}

/// The numeral of a number is made of digits, has its value, and begins with a
/// zero only if it is zero.
pub proof fn numerals_are_decimal(n: nat)
    ensures
        numeral(n).len() > 0,
        all_digits(numeral(n)),
        digits_value(numeral(n)) == n,
        numeral(n)[0] == '0' ==> n == 0 && numeral(n).len() == 1,
    decreases n,
{
    if n < 10 {
        let c = (48 + n) as char;
        assert(numeral(n) =~= seq![c]);
        assert(seq![c].drop_last() =~= Seq::<char>::empty());
        reveal_with_fuel(digits_value, 2);
    } else {
        numerals_are_decimal(n / 10);
        let front = numeral(n / 10);
        let c = (48 + n % 10) as char;
        assert(front.push(c).drop_last() =~= front);
        assert(numeral(n)[0] == front[0]);
        assert forall|i: int| 0 <= i < numeral(n).len() implies is_digit(
            #[trigger] numeral(n)[i],
        ) by {
            if i < front.len() {
                assert(front[i] == numeral(n)[i]);
            }
        }
    }
}

proof fn lemma_digit(c: char)
    ensures
        is_digit(c) <==> '0' <= c <= '9',
{
}

/// The digits are the ten of ASCII.
pub proof fn digits_are_ascii(c: char, s: Seq<char>)
    ensures
        is_digit(c) <==> '0' <= c <= '9',
        all_digits(s) <==> forall|i: int| 0 <= i < s.len() ==> '0' <= #[trigger] s[i] <= '9',
{
    if all_digits(s) {
        assert forall|i: int| 0 <= i < s.len() implies '0' <= #[trigger] s[i] <= '9' by {
            assert(is_digit(s[i]));
            lemma_digit(s[i]);
        }
    }
    if forall|i: int| 0 <= i < s.len() ==> '0' <= #[trigger] s[i] <= '9' {
        assert forall|i: int| 0 <= i < s.len() implies is_digit(#[trigger] s[i]) by {
            lemma_digit(s[i]);
        }
    }
}

// ---- the order of names ----

/// A text comes before another if it is the beginning of it, or has the lower
/// character where they first differ.
pub proof fn names_are_ordered_by_the_first_difference(a: Seq<char>, b: Seq<char>)
    ensures
        precedes(a, b) <==> exists|k: int|
            #![trigger a.take(k)]
            0 <= k <= a.len() && k < b.len() && a.take(k) == b.take(k) && (k == a.len() || (
            a[k] as int) < (b[k] as int)),
    decreases a.len(),
{
    if a.len() > 0 && b.len() > 0 && a[0] == b[0] {
        let x = a.drop_first();
        let y = b.drop_first();
        names_are_ordered_by_the_first_difference(x, y);
        if precedes(x, y) {
            let k = choose|k: int|
                #![trigger x.take(k)]
                0 <= k <= x.len() && k < y.len() && x.take(k) == y.take(k) && (k == x.len() || (
                x[k] as int) < (y[k] as int));
            assert(a.take(k + 1) =~= b.take(k + 1)) by {
                assert forall|i: int| 0 <= i < k + 1 implies a[i] == b[i] by {
                    if i > 0 {
                        assert(x.take(k)[i - 1] == a[i]);
                        assert(y.take(k)[i - 1] == b[i]);
                    }
                }
            }
            assert(k < x.len() ==> x[k] == a[k + 1]);
            assert(y[k] == b[k + 1]);
        }
        if exists|k: int|
            #![trigger a.take(k)]
            0 <= k <= a.len() && k < b.len() && a.take(k) == b.take(k) && (k == a.len() || (
            a[k] as int) < (b[k] as int)) {
            let k = choose|k: int|
                #![trigger a.take(k)]
                0 <= k <= a.len() && k < b.len() && a.take(k) == b.take(k) && (k == a.len() || (
                a[k] as int) < (b[k] as int));
            assert(k > 0);
            assert(x.take(k - 1) =~= y.take(k - 1)) by {
                assert forall|i: int| 0 <= i < k - 1 implies x[i] == y[i] by {
                    assert(a.take(k)[i + 1] == a[i + 1]);
                    assert(b.take(k)[i + 1] == b[i + 1]);
                }
            }
            assert(k < a.len() ==> x[k - 1] == a[k]);
            assert(y[k - 1] == b[k]);
        }
    } else {
        if precedes(a, b) {
            assert(a.take(0) =~= b.take(0));
        }
        if exists|k: int|
            #![trigger a.take(k)]
            0 <= k <= a.len() && k < b.len() && a.take(k) == b.take(k) && (k == a.len() || (
            a[k] as int) < (b[k] as int)) {
            let k = choose|k: int|
                #![trigger a.take(k)]
                0 <= k <= a.len() && k < b.len() && a.take(k) == b.take(k) && (k == a.len() || (
                a[k] as int) < (b[k] as int));
            if k > 0 {
                assert(a.take(k)[0] == a[0]);
                assert(b.take(k)[0] == b[0]);
            }
        }
    }
}

} // verus!
