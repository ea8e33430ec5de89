//! Text operations with exact meaning.

use crate::seqs;
use vstd::prelude::*;

verus! {

/// `String::from_utf8`: succeeds exactly on valid UTF-8, and then gives the
/// text that the bytes encode.
#[verifier::external_body]
pub(crate) fn text_from_utf8(bytes: Vec<u8>) -> (r: Option<String>)
    ensures
        r is Some <==> vstd::utf8::valid_utf8(bytes@),
        r is Some ==> r->0@ == vstd::utf8::decode_utf8(bytes@),
{
    String::from_utf8(bytes).ok()
}

/// `String::push`: appends one character.
pub assume_specification [String::push](s: &mut String, ch: char)
    ensures
        final(s)@ == old(s)@.push(ch),
;

/// The characters of `text`.
pub fn chars_of(text: &str) -> (r: Vec<char>)
    ensures
        r@ == text@,
{
    let mut chars: Vec<char> = Vec::new();
    for c in it: text.chars()
        invariant
            it.seq() == text@,
            chars@ == it.seq().take(it.index()),
    {
        chars.push(c);
        assert(it.seq().take(it.index() + 1) =~= it.seq().take(it.index()).push(c));
    }
    assert(text@.take(text@.len() as int) =~= text@);
    chars
}

/// Whether `chars` and `other` hold the same characters.
pub fn same_chars(chars: &[char], other: &[char]) -> (r: bool)
    ensures
        r == (chars@ == other@),
{
    if chars.len() != other.len() {
        return false;
    }
    let mut i: usize = 0;
    while i < chars.len()
        invariant
            i <= chars@.len(),
            chars@.len() == other@.len(),
            forall|j: int| 0 <= j < i ==> chars@[j] == other@[j],
        decreases chars@.len() - i,
    {
        if chars[i] != other[i] {
            return false;
        }
        i += 1;
    }
    assert(chars@ =~= other@);
    true
}

/// Whether two texts are the same.
pub fn same_text(text: &str, other: &str) -> (r: bool)
    ensures
        r == (text@ == other@),
{
    let chars = chars_of(text);
    let other_chars = chars_of(other);
    same_chars(chars.as_slice(), other_chars.as_slice())
}

pub open spec fn is_digit(c: char) -> bool {
    '0' <= c <= '9'
}

/// Whether `chars` is one or more decimal digits.
pub open spec fn is_digits(chars: Seq<char>) -> bool {
    chars.len() > 0 && forall|i: int| 0 <= i < chars.len() ==> is_digit(#[trigger] chars[i])
}

/// The number that decimal digits stand for.
pub open spec fn digits_value(digits: Seq<char>) -> nat
    decreases digits.len(),
{
    if digits.len() == 0 {
        0
    } else {
        digits_value(digits.drop_last()) * 10 + (digits.last() as u32 - '0' as u32) as nat
    }
}

/// The digits of a number after an optional plus sign.
pub open spec fn unsigned_part(text: Seq<char>) -> Seq<char> {
    if text.len() > 0 && text[0] == '+' {
        text.skip(1)
    } else {
        text
    }
}

/// The number that `text` denotes: decimal digits, with at most a plus sign
/// before them, whose value is no more than `max`.
pub open spec fn unsigned_reading(text: Seq<char>, max: nat) -> Option<nat> {
    let digits = unsigned_part(text);
    if is_digits(digits) && digits_value(digits) <= max {
        Some(digits_value(digits))
    } else {
        None
    }
}

proof fn lemma_digits_value_grows(digits: Seq<char>, k: int)
    requires
        0 <= k <= digits.len(),
    ensures
        digits_value(digits.take(k)) <= digits_value(digits),
    decreases digits.len() - k,
{
    if k == digits.len() {
        assert(digits.take(k) =~= digits);
    } else {
        lemma_digits_value_grows(digits, k + 1);
        assert(digits.take(k + 1).drop_last() =~= digits.take(k));
    }
}

/// Reads an unsigned decimal number that is no more than `max`.
pub fn read_unsigned(text: &str, max: u64) -> (r: Option<u64>)
    ensures
        match r {
            Some(value) => unsigned_reading(text@, max as nat) == Some(value as nat),
            None => unsigned_reading(text@, max as nat) is None,
        },
{
    let chars = chars_of(text);
    let start: usize = if chars.len() > 0 && chars[0] == '+' {
        1
    } else {
        0
    };
    let ghost digits = unsigned_part(text@);
    assert(digits =~= chars@.skip(start as int));
    if start == chars.len() {
        return None;
    }
    let mut value: u64 = 0;
    let mut i: usize = start;
    assert(digits.take(0) =~= Seq::empty());
    while i < chars.len()
        invariant
            start <= i <= chars@.len(),
            digits == chars@.skip(start as int),
            digits == unsigned_part(text@),
            forall|j: int| 0 <= j < i - start ==> is_digit(#[trigger] digits[j]),
            value == digits_value(digits.take(i - start)),
            value <= max,
        decreases chars@.len() - i,
    {
        let c: char = chars[i];
        assert(digits[i - start] == c);
        if c < '0' || c > '9' {
            assert(!is_digit(digits[i - start]));
            return None;
        }
        let digit: u64 = (c as u32 - '0' as u32) as u64;
        proof {
            assert(digits.take(i - start + 1).drop_last() =~= digits.take(i - start));
            assert(digits.take(i - start + 1).last() == c);
            lemma_digits_value_grows(digits, i - start + 1);
        }
        let next: u64 = match value.checked_mul(10) {
            Some(scaled) => match scaled.checked_add(digit) {
                Some(next) => next,
                None => {
                    return None;
                },
            },
            None => {
                return None;
            },
        };
        if next > max {
            return None;
        }
        value = next;
        i += 1;
    }
    assert(digits.take(digits.len() as int) =~= digits);
    Some(value)
}

/// The character of a single decimal digit.
pub open spec fn digit_char(digit: nat) -> char {
    ('0' as u32 + digit) as char
}

/// The decimal digits of `n`, without leading zeros.
pub open spec fn decimal_digits(n: nat) -> Seq<char>
    decreases n,
{
    if n < 10 {
        seq![digit_char(n)]
    } else {
        decimal_digits(n / 10).push(digit_char(n % 10))
    }
}

fn push_digits(n: u64, out: &mut String)
    ensures
        final(out)@ == old(out)@ + decimal_digits(n as nat),
    decreases n,
{
    if n >= 10 {
        push_digits(n / 10, out);
    }
    let digit: u8 = (n % 10) as u8;
    out.push((48u8 + digit) as char);
    proof {
        assert((48 + digit) as u8 as char == digit_char((n % 10) as nat));
        assert(out@ =~= old(out)@ + decimal_digits(n as nat));
    }
}

/// Writes `n` in decimal.
pub fn decimal(n: u64) -> (r: String)
    ensures
        r@ == decimal_digits(n as nat),
{
    let mut out = String::new();
    push_digits(n, &mut out);
    assert(out@ =~= decimal_digits(n as nat));
    out
}

/// A number that was written in decimal reads back as itself.
pub proof fn decimal_round_trip(n: nat, max: nat)
    requires
        n <= max,
    ensures
        unsigned_reading(decimal_digits(n), max) == Some(n),
{
    lemma_decimal_value(n);
    assert(is_digit(decimal_digits(n)[0]));
}

pub(crate) proof fn lemma_decimal_value(n: nat)
    ensures
        is_digits(decimal_digits(n)),
        digits_value(decimal_digits(n)) == n,
    decreases n,
{
    let digits = decimal_digits(n);
    if n < 10 {
        assert(digits.drop_last() =~= Seq::empty());
        reveal_with_fuel(digits_value, 2);
    } else {
        lemma_decimal_value(n / 10);
        assert(digits.drop_last() =~= decimal_digits(n / 10));
        assert forall|i: int| 0 <= i < digits.len() implies is_digit(#[trigger] digits[i]) by {
            if i < digits.len() - 1 {
                assert(digits[i] == decimal_digits(n / 10)[i]);
            }
        }
    }
}

/// Whether a character is white space according to Unicode.
pub open spec fn is_white_space(c: char) -> bool {
    let u = c as u32;
    ||| 0x09 <= u <= 0x0d
    ||| u == 0x20
    ||| u == 0x85
    ||| u == 0xa0
    ||| u == 0x1680
    ||| 0x2000 <= u <= 0x200a
    ||| u == 0x2028
    ||| u == 0x2029
    ||| u == 0x202f
    ||| u == 0x205f
    ||| u == 0x3000
}

/// `text` without white space in front.
pub open spec fn trimmed_start(text: Seq<char>) -> Seq<char>
    decreases text.len(),
{
    if text.len() > 0 && is_white_space(text[0]) {
        trimmed_start(text.drop_first())
    } else {
        text
    }
}

/// `text` without white space behind.
pub open spec fn trimmed_end(text: Seq<char>) -> Seq<char>
    decreases text.len(),
{
    if text.len() > 0 && is_white_space(text.last()) {
        trimmed_end(text.drop_last())
    } else {
        text
    }
}

/// `text` without white space around it.
pub open spec fn trimmed(text: Seq<char>) -> Seq<char> {
    trimmed_end(trimmed_start(text))
}

fn is_space(c: char) -> (r: bool)
    ensures
        r == is_white_space(c),
{
    let u: u32 = c as u32;
    (0x09 <= u && u <= 0x0d) || u == 0x20 || u == 0x85 || u == 0xa0 || u == 0x1680 || (0x2000 <= u
        && u <= 0x200a) || u == 0x2028 || u == 0x2029 || u == 0x202f || u == 0x205f || u == 0x3000
}

/// Takes white space off both ends.
pub fn trim(text: &str) -> (r: String)
    ensures
        r@ == trimmed(text@),
{
    let chars = chars_of(text);
    let mut start: usize = 0;
    assert(chars@.skip(0) =~= chars@);
    while start < chars.len() && is_space(chars[start])
        invariant
            start <= chars@.len(),
            trimmed_start(chars@.skip(start as int)) == trimmed_start(chars@),
        decreases chars@.len() - start,
    {
        proof {
            assert(chars@.skip(start as int)[0] == chars@[start as int]);
            assert(chars@.skip(start as int).drop_first() =~= chars@.skip(start + 1));
        }
        start += 1;
    }
    proof {
        if start < chars@.len() {
            assert(chars@.skip(start as int)[0] == chars@[start as int]);
        }
    }
    let ghost front = chars@.skip(start as int);
    let mut end: usize = chars.len();
    assert(chars@.subrange(start as int, end as int) =~= front);
    while end > start && is_space(chars[end - 1])
        invariant
            start <= end <= chars@.len(),
            trimmed_end(chars@.subrange(start as int, end as int)) == trimmed_end(front),
        decreases end - start,
    {
        proof {
            let part = chars@.subrange(start as int, end as int);
            assert(part.last() == chars@[end - 1]);
            assert(part.drop_last() =~= chars@.subrange(start as int, end - 1));
        }
        end -= 1;
    }
    proof {
        let part = chars@.subrange(start as int, end as int);
        if end > start {
            assert(part.last() == chars@[end - 1]);
        }
        assert(part == trimmed(text@));
    }
    let mut out = String::new();
    let mut i: usize = start;
    while i < end
        invariant
            start <= i <= end <= chars@.len(),
            out@ == chars@.subrange(start as int, i as int),
        decreases end - i,
    {
        out.push(chars[i]);
        assert(chars@.subrange(start as int, i + 1) =~= chars@.subrange(
            start as int,
            i as int,
        ).push(chars@[i as int]));
        i += 1;
    }
    out
}

/// Whether a text is empty.
pub fn is_blank(text: &str) -> (r: bool)
    ensures
        r == (text@.len() == 0),
{
    chars_of(text).len() == 0
}

/// Appends the UTF-8 bytes of `text`.
pub fn push_text(out: &mut Vec<u8>, text: &str)
    ensures
        final(out)@ == old(out)@ + vstd::utf8::encode_utf8(text@),
{
    let bytes = text.as_bytes();
    let mut i: usize = 0;
    while i < bytes.len()
        invariant
            i <= bytes@.len(),
            out@ == old(out)@ + bytes@.take(i as int),
        decreases bytes@.len() - i,
    {
        out.push(bytes[i]);
        assert(bytes@.take(i + 1) =~= bytes@.take(i as int).push(bytes@[i as int]));
        assert(out@ =~= old(out)@ + bytes@.take(i + 1));
        i += 1;
    }
    assert(bytes@.take(bytes@.len() as int) =~= bytes@);
}

/// Trimming again changes nothing.
pub proof fn trimming_is_idempotent(text: Seq<char>)
    ensures
        trimmed(trimmed(text)) == trimmed(text),
{
    lemma_trimmed_start(text);
    let start = trimmed_start(text);
    lemma_trimmed_end(start);
    let both = trimmed_end(start);
    if both.len() > 0 {
        assert(both[0] == start[0]);
    }
}

proof fn lemma_trimmed_start(text: Seq<char>)
    ensures
        trimmed_start(text).len() > 0 ==> !is_white_space(trimmed_start(text)[0]),
    decreases text.len(),
{
    if text.len() > 0 && is_white_space(text[0]) {
        lemma_trimmed_start(text.drop_first());
    }
}

proof fn lemma_trimmed_end(text: Seq<char>)
    ensures
        trimmed_end(text).len() > 0 ==> !is_white_space(trimmed_end(text).last()),
        trimmed_end(text).len() <= text.len(),
        trimmed_end(text) == text.take(trimmed_end(text).len() as int),
    decreases text.len(),
{
    if text.len() > 0 && is_white_space(text.last()) {
        lemma_trimmed_end(text.drop_last());
        let len = trimmed_end(text).len() as int;
        assert(text.drop_last().take(len) =~= text.take(len));
    } else {
        assert(text.take(text.len() as int) =~= text);
    }
}

/// The same text again, if there is any.
pub fn copy_optional(text: &Option<String>) -> (r: Option<String>)
    ensures
        seqs::text(r) == seqs::text(*text),
{
    match text {
        Some(text) => Some(text.clone()),
        None => None,
    }
}

/// Whether `a` comes before `b` in the order of their characters.
pub open spec fn before(a: Seq<char>, b: Seq<char>) -> bool
    decreases a.len(),
{
    if b.len() == 0 {
        false
    } else if a.len() == 0 {
        true
    } else if a[0] != b[0] {
        a[0] < b[0]
    } else {
        before(a.skip(1), b.skip(1))
    }
}

/// Text is totally ordered.
pub proof fn text_is_ordered(a: Seq<char>, b: Seq<char>, c: Seq<char>)
    ensures
        !before(a, a),
        before(a, b) ==> !before(b, a),
        before(a, b) || before(b, a) || a == b,
        before(a, b) && before(b, c) ==> before(a, c),
        before(a, b) && !before(c, b) ==> before(a, c),
        !before(b, a) && before(b, c) ==> before(a, c),
    decreases a.len() + b.len() + c.len(),
{
    if a.len() > 0 && b.len() > 0 && c.len() > 0 {
        text_is_ordered(a.skip(1), b.skip(1), c.skip(1));
        if a[0] == b[0] && a.skip(1) == b.skip(1) {
            assert(a =~= seq![a[0]] + a.skip(1));
            assert(b =~= seq![b[0]] + b.skip(1));
        }
    } else if a.len() > 0 && b.len() > 0 {
        text_is_ordered(a.skip(1), b.skip(1), c);
        if a[0] == b[0] && a.skip(1) == b.skip(1) {
            assert(a =~= seq![a[0]] + a.skip(1));
            assert(b =~= seq![b[0]] + b.skip(1));
        }
    } else if a.len() > 0 {
        text_is_ordered(a.skip(1), b, c);
        assert(b =~= Seq::empty());
    } else {
        assert(a =~= Seq::empty());
        if b.len() == 0 {
            assert(b =~= Seq::empty());
        }
    }
}

/// Whether `a` comes before `b`.
pub fn comes_before(a: &str, b: &str) -> (r: bool)
    ensures
        r == before(a@, b@),
{
    let left = chars_of(a);
    let right = chars_of(b);
    let mut i: usize = 0;
    assert(left@.skip(0) =~= left@);
    assert(right@.skip(0) =~= right@);
    while i < left.len() && i < right.len()
        invariant
            i <= left@.len(),
            i <= right@.len(),
            before(left@.skip(i as int), right@.skip(i as int)) == before(a@, b@),
        decreases left@.len() - i,
    {
        proof {
            assert(left@.skip(i as int).skip(1) =~= left@.skip(i + 1));
            assert(right@.skip(i as int).skip(1) =~= right@.skip(i + 1));
        }
        if left[i] != right[i] {
            return left[i] < right[i];
        }
        i += 1;
    }
    i < right.len()
}

proof fn lemma_cut_start(text: Seq<char>)
    ensures
        ({
            let kept = trimmed_start(text);
            let i = text.len() - kept.len();
            &&& kept.len() <= text.len()
            &&& kept == text.skip(i)
            &&& forall|k: int| 0 <= k < i ==> is_white_space(#[trigger] text[k])
            &&& kept.len() > 0 ==> !is_white_space(kept[0])
        }),
    decreases text.len(),
{
    let kept = trimmed_start(text);
    if text.len() > 0 && is_white_space(text[0]) {
        let rest = text.drop_first();
        lemma_cut_start(rest);
        let i = text.len() - kept.len();
        assert(rest.skip(i - 1) =~= text.skip(i));
        assert forall|k: int| 0 <= k < i implies is_white_space(#[trigger] text[k]) by {
            if k > 0 {
                assert(rest[k - 1] == text[k]);
            }
        }
    } else {
        assert(text.skip(0) =~= text);
    }
}

proof fn lemma_cut_end(text: Seq<char>)
    ensures
        ({
            let kept = trimmed_end(text);
            &&& kept.len() <= text.len()
            &&& kept == text.take(kept.len() as int)
            &&& forall|k: int| kept.len() <= k < text.len() ==> is_white_space(#[trigger] text[k])
            &&& kept.len() > 0 ==> !is_white_space(kept.last())
        }),
    decreases text.len(),
{
    lemma_trimmed_end(text);
    if text.len() > 0 && is_white_space(text.last()) {
        let front = text.drop_last();
        lemma_cut_end(front);
        let kept = trimmed_end(text);
        assert forall|k: int| kept.len() <= k < text.len() implies is_white_space(
            #[trigger] text[k],
        ) by {
            if k < front.len() {
                assert(front[k] == text[k]);
            }
        }
    }
}

/// Trimming cuts off white space at both ends, all of it and nothing else.
pub proof fn trimming_cuts_white_space(text: Seq<char>)
    ensures
        exists|i: int, j: int| #[trigger]
            is_cut(text, trimmed(text), i, j),
        trimmed(text).len() == 0 <==> forall|k: int|
            0 <= k < text.len() ==> is_white_space(#[trigger] text[k]),
{
    lemma_cut_start(text);
    let start = trimmed_start(text);
    lemma_cut_end(start);
    let i = text.len() - start.len();
    let j = i + trimmed(text).len();
    assert(trimmed(text) =~= text.subrange(i, j));
    assert forall|k: int| 0 <= k < i implies is_white_space(#[trigger] text[k]) by {}
    assert forall|k: int| j <= k < text.len() implies is_white_space(#[trigger] text[k]) by {
        assert(start[k - i] == text[k]);
    }
    assert(is_cut(text, trimmed(text), i, j));
    if trimmed(text).len() > 0 {
        assert(!is_white_space(text[j - 1]));
    }
}

/// Whether `kept` is what stands in `text` from `i` up to `j`, with nothing but
/// white space outside and none at its ends.
pub open spec fn is_cut(text: Seq<char>, kept: Seq<char>, i: int, j: int) -> bool {
    &&& 0 <= i <= j <= text.len()
    &&& kept == text.subrange(i, j)
    &&& forall|k: int| 0 <= k < i ==> is_white_space(#[trigger] text[k])
    &&& forall|k: int| j <= k < text.len() ==> is_white_space(#[trigger] text[k])
    &&& i < j ==> !is_white_space(text[i]) && !is_white_space(text[j - 1])
}

/// Of the ASCII characters the space and those from tab to carriage return are
/// white space.
pub proof fn ascii_white_space(c: char)
    requires
        c as u32 <= 0x7f,
    ensures
        is_white_space(c) <==> c == ' ' || 9 <= c as u32 <= 13,
{
}

/// A number is read digit by digit: each one more is worth itself, and those in
/// front of it ten times as much as before. A plus sign in front changes nothing,
/// and a text with anything else in it, or without any digit, is no number.
pub proof fn numbers_are_read_digit_by_digit(digits: Seq<char>, digit: char, max: nat)
    ensures
        unsigned_reading(Seq::empty(), max) is None,
        '0' <= digit <= '9' ==> unsigned_reading(seq![digit], max) == if digit as u32 - 48
            <= max {
            Some((digit as u32 - 48) as nat)
        } else {
            None
        },
        digits.len() > 0 && '0' <= digits[0] <= '9' && !('0' <= digit <= '9')
            ==> unsigned_reading(digits.push(digit), max) is None,
        unsigned_reading(digits, max) matches Some(value) ==> ('0' <= digit <= '9' && 10 * value + (
        digit as u32 - 48) <= max ==> unsigned_reading(digits.push(digit), max) == Some(
            (10 * value + (digit as u32 - 48)) as nat,
        )),
        unsigned_reading(digits, max) matches Some(value) ==> ('0' <= digit <= '9' && 10 * value + (
        digit as u32 - 48) > max ==> unsigned_reading(digits.push(digit), max) is None),
        digits.len() > 0 && digits[0] != '+' ==> unsigned_reading(seq!['+'] + digits, max)
            == unsigned_reading(digits, max),
        unsigned_reading(digits, max) matches Some(value) ==> value <= max,
{
    reveal_with_fuel(digits_value, 2);
    assert(seq![digit].drop_last() =~= Seq::empty());
    let more = digits.push(digit);
    if digits.len() > 0 {
        assert(unsigned_part(more) =~= unsigned_part(digits).push(digit));
        assert(unsigned_part(more).drop_last() =~= unsigned_part(digits));
        let part = unsigned_part(more);
        if part.len() > 0 {
            assert(part[part.len() - 1] == digit);
        }
        assert((seq!['+'] + digits).skip(1) =~= digits);
        if is_digits(unsigned_part(digits)) && '0' <= digit <= '9' {
            assert forall|k: int| 0 <= k < part.len() implies is_digit(#[trigger] part[k]) by {
                if k < part.len() - 1 {
                    assert(part[k] == unsigned_part(digits)[k]);
                }
            }
        }
    }
    if '0' <= digit <= '9' {
        assert(unsigned_part(seq![digit]) == seq![digit]);
        assert(is_digits(seq![digit]));
    }
}

/// Text is ordered by the first character in which it differs, and a text comes
/// before one that goes on where it ends.
pub proof fn order_is_by_first_difference(
    common: Seq<char>,
    a: char,
    b: char,
    c: Seq<char>,
    d: Seq<char>,
)
    ensures
        a != b ==> (before(common + seq![a] + c, common + seq![b] + d) <==> (a as u32) < (
        b as u32)),
        before(common, common + seq![b] + d),
        !before(common + seq![b] + d, common),
    decreases common.len(),
{
    let left = common + seq![a] + c;
    let right = common + seq![b] + d;
    if common.len() == 0 {
        assert(left[0] == a);
        assert(right[0] == b);
    } else {
        let rest = common.skip(1);
        order_is_by_first_difference(rest, a, b, c, d);
        assert(left.skip(1) =~= rest + seq![a] + c);
        assert(right.skip(1) =~= rest + seq![b] + d);
        assert(left[0] == common[0]);
        assert(right[0] == common[0]);
    }
}

/// Decimal numbers are written without leading zeros.
pub proof fn decimals_have_no_leading_zeros(n: nat)
    ensures
        decimal_digits(n).len() > 0,
        n > 0 ==> decimal_digits(n)[0] != '0',
        n == 0 ==> decimal_digits(n) == seq!['0'],
    decreases n,
{
    if n >= 10 {
        decimals_have_no_leading_zeros(n / 10);
        assert(decimal_digits(n)[0] == decimal_digits(n / 10)[0]);
    } else {
        assert(decimal_digits(n)[0] == digit_char(n));
        assert(decimal_digits(n) =~= seq![digit_char(n)]);
    }
}

} // verus!
