//! Character-level operations on text: trimming, splitting into lines,
//! comparison without regard to ASCII case, and reading decimal numbers.
//!
//! Every operation is specified over the text's view, a `Seq<char>`.

use vstd::prelude::*;
use vstd::string::*;

verus! {

/// The views of a sequence of strings.
pub open spec fn texts(strings: Seq<String>) -> Seq<Seq<char>> {
    Seq::new(strings.len(), |i: int| strings[i]@)
}

/// The characters of `s`, in order.
pub fn chars_of(s: &str) -> (chars: Vec<char>)
    ensures
        chars@ == s@,
{
    let mut chars: Vec<char> = Vec::new();
    for c in it: s.chars()
        invariant
            it.seq() == s@,
            chars@ == it.seq().take(it.index()),
    {
        chars.push(c);
    }
    chars
}

/// Whether two texts hold the same characters.
pub fn same_text(a: &str, b: &str) -> (same: bool)
    ensures
        same == (a@ == b@),
{
    let left = chars_of(a);
    let right = chars_of(b);
    if left.len() != right.len() {
        return false;
    }
    let mut i: usize = 0;
    while i < left.len()
        invariant
            i <= left.len(),
            left.len() == right.len(),
            left@ == a@,
            right@ == b@,
            forall|j: int| 0 <= j < i ==> left@[j] == right@[j],
        decreases left.len() - i,
    {
        if left[i] != right[i] {
            return false;
        }
        i += 1;
    }
    assert(a@ =~= b@);
    true
}

// ---------------------------------------------------------------------------
// White space and trimming
// ---------------------------------------------------------------------------

/// Whether `c` is white space: one of the code points to which Unicode gives
/// the property `White_Space`.
pub open spec fn white_space(c: char) -> bool {
    ||| '\u{9}' <= c <= '\u{d}'
    ||| c == ' '
    ||| c == '\u{85}'
    ||| c == '\u{a0}'
    ||| c == '\u{1680}'
    ||| '\u{2000}' <= c <= '\u{200a}'
    ||| c == '\u{2028}'
    ||| c == '\u{2029}'
    ||| c == '\u{202f}'
    ||| c == '\u{205f}'
    ||| c == '\u{3000}'
}

/// Tells whether `c` is white space.
pub fn is_white_space(c: char) -> (b: bool)
    ensures
        b == white_space(c),
{
    ('\u{9}' <= c && c <= '\u{d}') || c == ' ' || c == '\u{85}' || c == '\u{a0}' || c
        == '\u{1680}' || ('\u{2000}' <= c && c <= '\u{200a}') || c == '\u{2028}' || c
        == '\u{2029}' || c == '\u{202f}' || c == '\u{205f}' || c == '\u{3000}'
}

/// `s` without the white space it begins with.
pub open spec fn trimmed_start(s: Seq<char>) -> Seq<char>
    decreases s.len(),
{
    if s.len() > 0 && white_space(s.first()) {
        trimmed_start(s.drop_first())
    } else {
        s
    }
}

/// `s` without the white space it ends with.
pub open spec fn trimmed_end(s: Seq<char>) -> Seq<char>
    decreases s.len(),
{
    if s.len() > 0 && white_space(s.last()) {
        trimmed_end(s.drop_last())
    } else {
        s
    }
}

/// `s` without the white space at either end.
pub open spec fn trimmed(s: Seq<char>) -> Seq<char> {
    trimmed_end(trimmed_start(s))
}

/// White space written after a text is trimmed away with the text's own.
pub proof fn lemma_trimmed_end_of_padded(s: Seq<char>, pad: Seq<char>)
    requires
        forall|i: int| 0 <= i < pad.len() ==> white_space(#[trigger] pad[i]),
    ensures
        trimmed_end(s + pad) == trimmed_end(s),
    decreases pad.len(),
{
    if pad.len() == 0 {
        assert(s + pad =~= s);
    } else {
        let shorter = pad.drop_last();
        assert((s + pad).last() == pad.last());
        assert((s + pad).drop_last() =~= s + shorter);
        lemma_trimmed_end_of_padded(s, shorter);
    }
}

/// The part of `text` that is left when the white space at both ends is
/// taken away.
pub fn trim(text: &str) -> (inner: &str)
    ensures
        inner@ == trimmed(text@),
{
    let chars = chars_of(text);
    let n = chars.len();
    let mut lo: usize = 0;
    assert(chars@.skip(0) =~= chars@);
    while lo < n && is_white_space(chars[lo])
        invariant
            n == chars.len(),
            lo <= n,
            trimmed_start(chars@) == trimmed_start(chars@.skip(lo as int)),
        decreases n - lo,
    {
        assert(chars@.skip(lo as int).drop_first() =~= chars@.skip(lo + 1));
        lo += 1;
    }
    assert(trimmed_start(chars@) == chars@.skip(lo as int));
    let mut hi: usize = n;
    assert(chars@.subrange(lo as int, hi as int) =~= chars@.skip(lo as int));
    while hi > lo && is_white_space(chars[hi - 1])
        invariant
            n == chars.len(),
            lo <= hi <= n,
            trimmed_end(chars@.skip(lo as int)) == trimmed_end(
                chars@.subrange(lo as int, hi as int),
            ),
        decreases hi,
    {
        assert(chars@.subrange(lo as int, hi as int).drop_last() =~= chars@.subrange(
            lo as int,
            hi - 1,
        ));
        hi -= 1;
    }
    assert(trimmed_end(chars@.skip(lo as int)) == chars@.subrange(lo as int, hi as int));
    text.substring_char(lo, hi)
}

// ---------------------------------------------------------------------------
// Lines
// ---------------------------------------------------------------------------

/// Whether a line break, `\r` with `\n` right after it, begins at position
/// `i` of `s`.
pub open spec fn line_break_at(s: Seq<char>, i: int) -> bool {
    0 <= i && i + 1 < s.len() && s[i] == '\r' && s[i + 1] == '\n'
}

/// Whether `s` holds no line break.
pub open spec fn unbroken(s: Seq<char>) -> bool {
    forall|i: int| !line_break_at(s, i)
}

/// The position of the first line break of `s` that begins at `from` or
/// later; the length of `s` where there is none.
pub open spec fn next_break(s: Seq<char>, from: int) -> int
    decreases s.len() - from,
{
    if from < 0 || from >= s.len() {
        s.len() as int
    } else if line_break_at(s, from) {
        from
    } else {
        next_break(s, from + 1)
    }
}

/// The lines of `s`: the pieces between its line breaks, taken from the
/// left. A text without a line break is one line, the empty text too, and a
/// text that ends in a line break has an empty last line.
pub open spec fn lines(s: Seq<char>) -> Seq<Seq<char>>
    decreases s.len(),
{
    let i = next_break(s, 0);
    if 0 <= i && i + 2 <= s.len() {
        seq![s.take(i)] + lines(s.skip(i + 2))
    } else {
        seq![s]
    }
}

/// A text has at least one line.
pub proof fn lemma_lines_nonempty(s: Seq<char>)
    ensures
        lines(s).len() >= 1,
{
}

/// What `next_break` finds: a line break, with none between `from` and it, or
/// the end of `s` with none after `from` at all.
pub proof fn lemma_next_break(s: Seq<char>, from: int)
    requires
        0 <= from <= s.len(),
    ensures
        from <= next_break(s, from) <= s.len(),
        next_break(s, from) < s.len() ==> line_break_at(s, next_break(s, from)),
        forall|j: int| from <= j < next_break(s, from) ==> !line_break_at(s, j),
    decreases s.len() - from,
{
    if from < s.len() && !line_break_at(s, from) {
        lemma_next_break(s, from + 1);
    }
}

/// A position with a line break at it and none before it is where
/// `next_break` stops.
pub proof fn lemma_next_break_is(s: Seq<char>, from: int, at: int)
    requires
        0 <= from <= at <= s.len(),
        at < s.len() ==> line_break_at(s, at),
        forall|j: int| from <= j < at ==> !line_break_at(s, j),
    ensures
        next_break(s, from) == at,
    decreases at - from,
{
    if from < at {
        lemma_next_break_is(s, from + 1, at);
    }
}

/// No line of a text holds a line break.
pub proof fn law_lines_are_unbroken(s: Seq<char>)
    ensures
        forall|i: int| 0 <= i < lines(s).len() ==> unbroken(#[trigger] lines(s)[i]),
    decreases s.len(),
{
    let at = next_break(s, 0);
    lemma_next_break(s, 0);
    if at + 2 <= s.len() {
        let head = s.take(at);
        let rest = s.skip(at + 2);
        law_lines_are_unbroken(rest);
        assert forall|j: int| !line_break_at(head, j) by {
            if line_break_at(head, j) {
                assert(line_break_at(s, j));
            }
        }
        assert forall|i: int| 0 <= i < lines(s).len() implies unbroken(#[trigger] lines(s)[i]) by {
            if i > 0 {
                assert(lines(s)[i] == lines(rest)[i - 1]);
            }
        }
    } else {
        assert forall|j: int| !line_break_at(s, j) by {}
    }
}

/// Splits `text` at its line breaks.
pub fn split_lines(text: &str) -> (pieces: Vec<String>)
    ensures
        texts(pieces@) == lines(text@),
{
    let chars = chars_of(text);
    let n = chars.len();
    let mut pieces: Vec<String> = Vec::new();
    let mut start: usize = 0;
    let mut i: usize = 0;
    assert(chars@.skip(0) =~= chars@);
    assert(texts(pieces@) + lines(chars@) =~= lines(chars@));
    while i < n
        invariant
            n == chars.len(),
            chars@ == text@,
            start <= i <= n,
            forall|j: int| start <= j < i ==> !line_break_at(chars@, j),
            lines(chars@) == texts(pieces@) + lines(chars@.skip(start as int)),
        decreases n - i,
    {
        if chars[i] == '\r' && i + 1 < n && chars[i + 1] == '\n' {
            let piece = text.substring_char(start, i).to_owned();
            proof {
                let rest = chars@.skip(start as int);
                assert forall|j: int| 0 <= j < i - start implies !line_break_at(rest, j) by {
                    assert(line_break_at(rest, j) == line_break_at(chars@, start + j));
                }
                assert(line_break_at(rest, i - start));
                lemma_next_break_is(rest, 0, i - start);
                assert(rest.take(i - start) =~= chars@.subrange(start as int, i as int));
                assert(rest.skip(i - start + 2) =~= chars@.skip(i + 2));
                assert(texts(pieces@.push(piece)) =~= texts(pieces@) + seq![piece@]);
            }
            pieces.push(piece);
            i += 2;
            start = i;
        } else {
            i += 1;
        }
    }
    let piece = text.substring_char(start, n).to_owned();
    proof {
        let rest = chars@.skip(start as int);
        assert forall|j: int| 0 <= j < n - start implies !line_break_at(rest, j) by {
            assert(line_break_at(rest, j) == line_break_at(chars@, start + j));
        }
        lemma_next_break_is(rest, 0, n - start);
        assert(rest =~= chars@.subrange(start as int, n as int));
        assert(texts(pieces@.push(piece)) =~= texts(pieces@) + seq![piece@]);
    }
    pieces.push(piece);
    pieces
}

// ---------------------------------------------------------------------------
// ASCII case
// ---------------------------------------------------------------------------

/// The upper-case form of an ASCII letter; any other character unchanged.
pub open spec fn ascii_upper(c: char) -> char {
    if 'a' <= c <= 'z' {
        ((c as u8) - 32) as char
    } else {
        c
    }
}

/// `s` with each ASCII letter in upper case.
pub open spec fn ascii_uppercase(s: Seq<char>) -> Seq<char> {
    Seq::new(s.len(), |i: int| ascii_upper(s[i]))
}

/// The upper-case form of `c` where it is an ASCII letter, else `c`.
pub fn to_ascii_upper(c: char) -> (u: char)
    ensures
        u == ascii_upper(c),
{
    if 'a' <= c && c <= 'z' {
        ((c as u8) - 32) as char
    } else {
        c
    }
}

/// Whether `text`, with its ASCII letters in upper case, reads `word`.
pub fn ascii_uppercase_is(text: &str, word: &str) -> (same: bool)
    ensures
        same == (ascii_uppercase(text@) == word@),
{
    let left = chars_of(text);
    let right = chars_of(word);
    if left.len() != right.len() {
        return false;
    }
    let mut i: usize = 0;
    while i < left.len()
        invariant
            i <= left.len(),
            left.len() == right.len(),
            left@ == text@,
            right@ == word@,
            forall|j: int| 0 <= j < i ==> ascii_upper(left@[j]) == right@[j],
        decreases left.len() - i,
    {
        if to_ascii_upper(left[i]) != right[i] {
            assert(ascii_uppercase(text@)[i as int] != word@[i as int]);
            return false;
        }
        i += 1;
    }
    assert(ascii_uppercase(text@) =~= word@);
    true
}

// ---------------------------------------------------------------------------
// Decimal numbers
// ---------------------------------------------------------------------------

/// Whether `c` is one of the digits `0` to `9`.
pub open spec fn is_digit(c: char) -> bool {
    '0' <= c <= '9'
}

/// The number that the digit `c` stands for.
pub open spec fn digit_value(c: char) -> nat {
    (c as u32 - '0' as u32) as nat
}

/// Whether `s` is made of digits alone.
pub open spec fn all_digits(s: Seq<char>) -> bool {
    forall|i: int| 0 <= i < s.len() ==> is_digit(#[trigger] s[i])
}

/// The number that the digits `s` write in base ten.
pub open spec fn decimal_value(s: Seq<char>) -> nat
    decreases s.len(),
{
    if s.len() == 0 {
        0
    } else {
        decimal_value(s.drop_last()) * 10 + digit_value(s.last())
    }
}

/// `s` without a leading `+`.
pub open spec fn unsigned_part(s: Seq<char>) -> Seq<char> {
    if s.len() > 0 && s[0] == '+' {
        s.drop_first()
    } else {
        s
    }
}

/// The number that `s` writes: after an optional `+`, one digit or more and
/// nothing else, where the number they write is at most `u128::MAX`.
pub open spec fn parsed_u128(s: Seq<char>) -> Option<u128> {
    let digits = unsigned_part(s);
    if digits.len() > 0 && all_digits(digits) && decimal_value(digits) <= u128::MAX {
        Some(decimal_value(digits) as u128)
    } else {
        None
    }
}

/// Digits written after a number do not make it smaller.
pub proof fn lemma_decimal_value_grows(s: Seq<char>, k: int)
    requires
        0 <= k <= s.len(),
    ensures
        decimal_value(s.take(k)) <= decimal_value(s),
    decreases s.len() - k,
{
    if k < s.len() {
        lemma_decimal_value_grows(s, k + 1);
        assert(s.take(k + 1).drop_last() =~= s.take(k));
    } else {
        assert(s.take(k) =~= s);
    }
}

/// Reads `text` as a decimal number.
pub fn parse_u128(text: &str) -> (number: Option<u128>)
    ensures
        number == parsed_u128(text@),
{
    let chars = chars_of(text);
    let n = chars.len();
    let first: usize = if n > 0 && chars[0] == '+' {
        1
    } else {
        0
    };
    let ghost digits = unsigned_part(text@);
    assert(digits =~= chars@.skip(first as int));
    if first == n {
        return None;
    }
    let mut value: u128 = 0;
    let mut i: usize = first;
    assert(digits.take(0) =~= Seq::<char>::empty());
    while i < n
        invariant
            n == chars.len(),
            first <= i <= n,
            digits == unsigned_part(text@),
            digits == chars@.skip(first as int),
            all_digits(digits.take(i - first)),
            value == decimal_value(digits.take(i - first)),
        decreases n - i,
    {
        let c = chars[i];
        assert(c == digits[i - first]);
        if !('0' <= c && c <= '9') {
            return None;
        }
        let digit: u128 = ((c as u32) - ('0' as u32)) as u128;
        proof {
            let longer = digits.take(i - first + 1);
            assert(longer.drop_last() =~= digits.take(i - first));
            assert(longer.last() == c);
            assert(all_digits(longer)) by {
                assert forall|j: int| 0 <= j < longer.len() implies is_digit(
                    #[trigger] longer[j],
                ) by {
                    if j < i - first {
                        assert(longer[j] == digits.take(i - first)[j]);
                    }
                }
            }
            assert(decimal_value(longer) == value * 10 + digit);
            lemma_decimal_value_grows(digits, i - first + 1);
        }
        let scaled = match value.checked_mul(10) {
            Some(scaled) => scaled,
            None => {
                return None;
            },
        };
        value = match scaled.checked_add(digit) {
            Some(sum) => sum,
            None => {
                return None;
            },
        };
        i += 1;
    }
    assert(digits.take(n - first) =~= digits);
    Some(value)
}

} // verus!
