//! Amounts as decimal text.
//!
//! A decimal is written as an optional `-`, digits, and optionally a `.`
//! with more digits: `12345.6789`, `7`, `.5`, `3.`, `-0.0`. At least one
//! digit is needed. Such a text stands for the rational number
//! `mantissa / 10^scale`, where the mantissa is the number that its digits
//! spell and the scale is the count of digits behind the point.
//!
//! The amount of a decimal is that number in ten-thousandths, with what
//! lies behind the fourth decimal place cut off. Nothing here goes through
//! floating point, so every digit up to the fourth place is kept as it is
//! written.

use crate::amount::Amount;
use vstd::arithmetic::div_mod::{
    lemma_fundamental_div_mod, lemma_fundamental_div_mod_converse, lemma_mod_pos_bound,
};
use vstd::arithmetic::power::{lemma_pow_adds, lemma_pow_positive, pow};
use vstd::prelude::*;
use vstd::string::{is_ascii_spec_bytes, StringExecFns, StringSliceAdditionalSpecFns};
use vstd::utf8::is_ascii_chars;

verus! {

/// Why a text is not the decimal of an amount.
#[derive(Clone, Copy, Debug, PartialEq, Eq, Structural)]
pub enum InvalidAmount {
    /// The text is not a decimal.
    Malformed,
    /// The decimal is below zero.
    Negative,
    /// The decimal is beyond the largest amount.
    OutOfRange,
}

/// `c` is one of the digits `0` to `9`.
pub open spec fn is_digit(c: char) -> bool {
    '0' <= c && c <= '9'
}

/// The number that the digit `c` stands for.
pub open spec fn digit_of(c: char) -> nat
    recommends
        is_digit(c),
{
    (c as int - '0' as int) as nat
}

/// The digit that stands for `d`.
pub open spec fn digit_char(d: nat) -> char
    recommends
        d < 10,
{
    ('0' as int + d) as char
}

/// Every character of `s` is a digit.
pub open spec fn all_digits(s: Seq<char>) -> bool {
    forall|i: int| 0 <= i < s.len() ==> is_digit(#[trigger] s[i])
}

/// The number that the digits `s` spell; zero for no digits.
pub open spec fn digits_value(s: Seq<char>) -> nat
    decreases s.len(),
{
    if s.len() == 0 {
        0
    } else {
        10 * digits_value(s.drop_last()) + digit_of(s.last())
    }
}

/// The text starts with a minus sign.
pub open spec fn is_negative(text: Seq<char>) -> bool {
    text.len() > 0 && text[0] == '-'
}

/// The text without its minus sign, if it has one.
pub open spec fn unsigned(text: Seq<char>) -> Seq<char> {
    if is_negative(text) {
        text.drop_first()
    } else {
        text
    }
}

/// Where the first `.` of `body` stands; its length if it has none.
pub open spec fn point_of(body: Seq<char>) -> int
    decreases body.len(),
{
    if body.len() == 0 || body[0] == '.' {
        0
    } else {
        1 + point_of(body.drop_first())
    }
}

/// What is written before the point.
pub open spec fn whole_digits(text: Seq<char>) -> Seq<char> {
    let body = unsigned(text);
    body.take(point_of(body))
}

/// What is written behind the point; nothing where there is no point.
pub open spec fn fraction_digits(text: Seq<char>) -> Seq<char> {
    let body = unsigned(text);
    if point_of(body) < body.len() {
        body.skip(point_of(body) + 1)
    } else {
        Seq::empty()
    }
}

/// The text is a decimal: digits before and behind the point, at least one
/// in all.
pub open spec fn is_decimal(text: Seq<char>) -> bool {
    &&& all_digits(whole_digits(text))
    &&& all_digits(fraction_digits(text))
    &&& whole_digits(text).len() + fraction_digits(text).len() > 0
}

/// The number that all digits of a decimal spell, the point left out.
pub open spec fn mantissa(text: Seq<char>) -> nat {
    digits_value(whole_digits(text) + fraction_digits(text))
}

/// The count of digits behind the point.
pub open spec fn scale(text: Seq<char>) -> nat {
    fraction_digits(text).len()
}

/// The size of a decimal in ten-thousandths, rounded down to a whole
/// number: `mantissa / 10^scale * 10^4`, cut off.
pub open spec fn ten_thousandths(text: Seq<char>) -> nat {
    ((mantissa(text) * 10_000) as int / pow(10, scale(text))) as nat
}

/// The amount that `text` stands for, or why it stands for none.
pub open spec fn parse_decimal(text: Seq<char>) -> Result<Amount, InvalidAmount> {
    if !is_decimal(text) {
        Err(InvalidAmount::Malformed)
    } else if is_negative(text) && mantissa(text) > 0 {
        Err(InvalidAmount::Negative)
    } else if ten_thousandths(text) > u64::MAX {
        Err(InvalidAmount::OutOfRange)
    } else {
        Ok(Amount(ten_thousandths(text) as u64))
    }
}

/// The digits of `n`, without leading zeros; `0` for zero.
pub open spec fn decimal_digits(n: nat) -> Seq<char>
    decreases n,
{
    if n < 10 {
        seq![digit_char(n)]
    } else {
        decimal_digits(n / 10).push(digit_char(n % 10))
    }
}

/// The four digits of `n`, which is below ten thousand.
pub open spec fn four_digits(n: nat) -> Seq<char>
    recommends
        n < 10_000,
{
    seq![
        digit_char(n / 1000),
        digit_char(n / 100 % 10),
        digit_char(n / 10 % 10),
        digit_char(n % 10),
    ]
}

/// The decimal of an amount: its whole units, a point, and exactly four
/// digits behind it.
pub open spec fn render_decimal(amount: Amount) -> Seq<char> {
    decimal_digits(amount.0 as nat / 10_000) + seq!['.'] + four_digits(amount.0 as nat % 10_000)
}

/// The first four digits behind the point as a number, zeros standing in
/// for digits that are not written.
pub open spec fn leading_fraction(fraction: Seq<char>) -> nat {
    if fraction.len() <= 4 {
        (digits_value(fraction) * pow(10, (4 - fraction.len()) as nat)) as nat
    } else {
        digits_value(fraction.take(4))
    }
}

/// The first powers of ten.
proof fn lemma_small_powers()
    ensures
        pow(10, 0) == 1,
        pow(10, 1) == 10,
        pow(10, 2) == 100,
        pow(10, 3) == 1000,
        pow(10, 4) == 10_000,
{
    reveal_with_fuel(pow, 5);
}

/// `point_of` finds the first point: nothing before it is a point, and
/// where it lies inside the text, a point stands there.
pub proof fn lemma_point_of(body: Seq<char>)
    ensures
        0 <= point_of(body) <= body.len(),
        forall|i: int| 0 <= i < point_of(body) ==> body[i] != '.',
        point_of(body) < body.len() ==> body[point_of(body)] == '.',
    decreases body.len(),
{
    if body.len() == 0 || body[0] == '.' {
    } else {
        let rest = body.drop_first();
        lemma_point_of(rest);
        assert forall|i: int| 0 <= i < point_of(body) implies body[i] != '.' by {
            if i > 0 {
                assert(body[i] == rest[i - 1]);
            }
        }
    }
}

/// A place with no point before it, which holds a point or is the end of
/// the text, is where `point_of` lands.
proof fn lemma_point_found(body: Seq<char>, at: int)
    requires
        0 <= at <= body.len(),
        forall|i: int| 0 <= i < at ==> body[i] != '.',
        at < body.len() ==> body[at] == '.',
    ensures
        point_of(body) == at,
{
    lemma_point_of(body);
}

/// One more digit at the end: ten times the number so far, and the digit.
proof fn lemma_digits_value_push(s: Seq<char>, c: char)
    ensures
        digits_value(s.push(c)) == 10 * digits_value(s) + digit_of(c),
{
    assert(s.push(c).drop_last() =~= s);
}

/// The digits `a` followed by the digits `b` spell the number of `a`,
/// shifted by the length of `b`, plus the number of `b`.
proof fn lemma_digits_value_concat(a: Seq<char>, b: Seq<char>)
    ensures
        digits_value(a + b) == digits_value(a) * pow(10, b.len()) + digits_value(b),
    decreases b.len(),
{
    if b.len() == 0 {
        assert(a + b =~= a);
        lemma_small_powers();
    } else {
        let front = b.drop_last();
        assert((a + b).drop_last() =~= a + front);
        assert((a + b).last() == b.last());
        lemma_digits_value_concat(a, front);
        let shifted = pow(10, front.len());
        assert(pow(10, b.len()) == 10 * shifted) by {
            reveal_with_fuel(pow, 2);
        }
        assert(10 * (digits_value(a) * shifted + digits_value(front)) == digits_value(a) * (10
            * shifted) + 10 * digits_value(front)) by (nonlinear_arith);
    }
}

/// `n` digits spell a number below `10^n`.
proof fn lemma_digits_value_bound(s: Seq<char>)
    requires
        all_digits(s),
    ensures
        digits_value(s) < pow(10, s.len()),
    decreases s.len(),
{
    if s.len() == 0 {
        lemma_small_powers();
    } else {
        let front = s.drop_last();
        lemma_digits_value_bound(front);
        assert(is_digit(s.last()));
        assert(pow(10, s.len()) == 10 * pow(10, front.len())) by {
            reveal_with_fuel(pow, 2);
        }
    }
}

/// Cutting a decimal off behind the fourth place keeps the digits before
/// the point and the first four behind it.
proof fn lemma_cut_off(whole: Seq<char>, fraction: Seq<char>)
    requires
        all_digits(whole),
        all_digits(fraction),
    ensures
        (digits_value(whole + fraction) * 10_000) as int / pow(10, fraction.len())
            == digits_value(whole) * 10_000 + leading_fraction(fraction),
        leading_fraction(fraction) < 10_000,
{
    let w = digits_value(whole) as int;
    let f = digits_value(fraction) as int;
    let n = fraction.len();
    let p = pow(10, n);
    lemma_small_powers();
    lemma_pow_positive(10, n);
    lemma_digits_value_concat(whole, fraction);
    lemma_digits_value_bound(fraction);
    let m = digits_value(whole + fraction) as int;
    assert(m == w * p + f);
    if n <= 4 {
        let fill = pow(10, (4 - n) as nat);
        lemma_pow_adds(10, (4 - n) as nat, n);
        lemma_pow_positive(10, (4 - n) as nat);
        assert(fill * p == 10_000);
        let q = w * 10_000 + f * fill;
        assert(m * 10_000 == q * p + 0) by (nonlinear_arith)
            requires
                m == w * p + f,
                fill * p == 10_000,
                q == w * 10_000 + f * fill,
        ;
        lemma_fundamental_div_mod_converse(m * 10_000, p, q, 0);
        assert(f * fill < 10_000) by (nonlinear_arith)
            requires
                0 <= f < p,
                fill * p == 10_000,
                fill > 0,
        ;
        assert(f * fill >= 0) by (nonlinear_arith)
            requires
                f >= 0,
                fill > 0,
        ;
    } else {
        let head = fraction.take(4);
        let tail = fraction.skip(4);
        assert(head + tail =~= fraction);
        lemma_digits_value_concat(head, tail);
        lemma_digits_value_bound(head);
        lemma_digits_value_bound(tail);
        let a = digits_value(head) as int;
        let b = digits_value(tail) as int;
        let t = pow(10, tail.len());
        lemma_pow_adds(10, 4, tail.len());
        assert(p == 10_000 * t);
        let q = w * 10_000 + a;
        let r = b * 10_000;
        assert(m * 10_000 == q * p + r) by (nonlinear_arith)
            requires
                m == w * p + f,
                f == a * t + b,
                p == 10_000 * t,
                q == w * 10_000 + a,
                r == b * 10_000,
        ;
        assert(0 <= r < p);
        lemma_fundamental_div_mod_converse(m * 10_000, p, q, r);
    }
}

/// A character that is no digit, and does not stand where the first point
/// stands, spoils a decimal.
proof fn lemma_stray_character(text: Seq<char>, at: int)
    requires
        0 <= at < unsigned(text).len(),
        !is_digit(unsigned(text)[at]),
        at != point_of(unsigned(text)),
    ensures
        !is_decimal(text),
{
    let body = unsigned(text);
    let point = point_of(body);
    lemma_point_of(body);
    if at < point {
        assert(whole_digits(text)[at] == body[at]);
    } else {
        assert(fraction_digits(text)[at - point - 1] == body[at]);
    }
}

/// A decimal holds no character beyond the ASCII range.
proof fn lemma_decimal_is_ascii(text: Seq<char>)
    requires
        is_decimal(text),
    ensures
        is_ascii_chars(text),
{
    let body = unsigned(text);
    lemma_point_of(body);
    assert forall|i: int| 0 <= i < text.len() implies '\0' <= #[trigger] text[i] <= '\u{7f}' by {
        let at = if is_negative(text) {
            i - 1
        } else {
            i
        };
        if at >= 0 {
            assert(body[at] == text[i]);
            if !is_digit(body[at]) && at != point_of(body) {
                lemma_stray_character(text, at);
            }
        }
    }
}

/// One more digit read: ten times the number so far, and the digit.
proof fn lemma_next_digit(text: Seq<char>, from: int, at: int)
    requires
        0 <= from <= at < text.len(),
    ensures
        digits_value(text.subrange(from, at + 1)) == 10 * digits_value(text.subrange(from, at))
            + digit_of(text[at]),
{
    assert(text.subrange(from, at + 1) =~= text.subrange(from, at).push(text[at]));
    lemma_digits_value_push(text.subrange(from, at), text[at]);
}

/// A decimal is above zero where the digits before or behind its point
/// spell a number above zero.
proof fn lemma_mantissa_positive(whole: Seq<char>, fraction: Seq<char>)
    ensures
        digits_value(whole + fraction) > 0 <==> digits_value(whole) > 0 || digits_value(fraction)
            > 0,
{
    lemma_digits_value_concat(whole, fraction);
    lemma_pow_positive(10, fraction.len());
    let w = digits_value(whole) as int;
    let p = pow(10, fraction.len());
    assert(w > 0 ==> w * p > 0) by (nonlinear_arith)
        requires
            p > 0,
    ;
    assert(w == 0 ==> w * p == 0) by (nonlinear_arith);
}

/// Where the sign ends, and the digits up to `point` hold no point, and
/// `point` holds one or is the end of the text: the digits before the
/// point are those from the sign to `point`, the digits behind it are the
/// rest.
proof fn lemma_parts(text: Seq<char>, start: int, point: int)
    requires
        start == if is_negative(text) { 1int } else { 0int },
        start <= point <= text.len(),
        all_digits(text.subrange(start, point)),
        point < text.len() ==> text[point] == '.',
    ensures
        point_of(unsigned(text)) == point - start,
        whole_digits(text) == text.subrange(start, point),
        fraction_digits(text) == if point < text.len() {
            text.subrange(point + 1, text.len() as int)
        } else {
            Seq::empty()
        },
{
    let body = unsigned(text);
    assert(body =~= text.skip(start));
    assert forall|i: int| 0 <= i < point - start implies body[i] != '.' by {
        assert(is_digit(text.subrange(start, point)[i]));
    }
    lemma_point_found(body, point - start);
    assert(body.take(point - start) =~= text.subrange(start, point));
    if point < text.len() {
        assert(body.skip(point - start + 1) =~= text.subrange(point + 1, text.len() as int));
    }
}

/// Digits behind the sign, followed by a character that is neither a digit
/// nor a point, are no decimal.
proof fn lemma_spoiled_whole(text: Seq<char>, start: int, at: int)
    requires
        start == if is_negative(text) { 1int } else { 0int },
        start <= at < text.len(),
        all_digits(text.subrange(start, at)),
        !is_digit(text[at]),
        text[at] != '.',
    ensures
        !is_decimal(text),
{
    let body = unsigned(text);
    assert(body =~= text.skip(start));
    lemma_point_of(body);
    assert(body[at - start] == text[at]);
    lemma_stray_character(text, at - start);
}

/// A character behind the point that is no digit spoils a decimal.
proof fn lemma_spoiled_fraction(text: Seq<char>, start: int, point: int, at: int)
    requires
        start == if is_negative(text) { 1int } else { 0int },
        point_of(unsigned(text)) == point - start,
        start <= point < at < text.len(),
        !is_digit(text[at]),
    ensures
        !is_decimal(text),
{
    let body = unsigned(text);
    assert(body =~= text.skip(start));
    assert(body[at - start] == text[at]);
    lemma_stray_character(text, at - start);
}

/// Each byte of `bytes` is the code of the character of `text` at its
/// place.
spec fn spelled_by(text: Seq<char>, bytes: Seq<u8>) -> bool {
    &&& bytes.len() == text.len()
    &&& forall|i: int| 0 <= i < text.len() ==> (#[trigger] text[i]) as int == bytes[i] as int
}

/// The largest number of whole units whose ten-thousandths may still fit
/// in an amount.
const WHOLE_LIMIT: u64 = 1_844_674_407_370_955;

/// A run of digits, as far as it was read.
struct Digits {
    /// Where the run ends: the place of the first character that is no
    /// digit, or the end of the text.
    end: usize,
    /// The number that the digits spell. For the digits before the point it
    /// is the whole number, unless that is `beyond` the limit; for those
    /// behind it, the first four of them, filled up with zeros.
    value: u64,
    /// The digits before the point spell a number above the limit.
    beyond: bool,
    /// One of the digits is not `0`.
    nonzero: bool,
}

/// Reads the digits before the point, from `from` on.
fn read_whole(bytes: &[u8], from: usize, Ghost(text): Ghost<Seq<char>>) -> (run: Digits)
    requires
        spelled_by(text, bytes@),
        from <= bytes.len(),
    ensures
        from <= run.end <= bytes.len(),
        all_digits(text.subrange(from as int, run.end as int)),
        run.end < bytes.len() ==> !is_digit(text[run.end as int]),
        !run.beyond ==> run.value == digits_value(text.subrange(from as int, run.end as int))
            && run.value <= WHOLE_LIMIT,
        run.beyond ==> digits_value(text.subrange(from as int, run.end as int)) > WHOLE_LIMIT,
        run.nonzero <==> digits_value(text.subrange(from as int, run.end as int)) > 0,
{
    let mut at: usize = from;
    let mut value: u64 = 0;
    let mut beyond = false;
    let mut nonzero = false;
    while at < bytes.len() && 48u8 <= bytes[at] && bytes[at] <= 57u8
        invariant
            from <= at <= bytes.len(),
            spelled_by(text, bytes@),
            all_digits(text.subrange(from as int, at as int)),
            !beyond ==> value == digits_value(text.subrange(from as int, at as int)) && value
                <= WHOLE_LIMIT,
            beyond ==> digits_value(text.subrange(from as int, at as int)) > WHOLE_LIMIT,
            nonzero <==> digits_value(text.subrange(from as int, at as int)) > 0,
        decreases bytes.len() - at,
    {
        let digit = (bytes[at] - 48u8) as u64;
        proof {
            lemma_next_digit(text, from as int, at as int);
            assert(is_digit(text[at as int]));
            assert(digit == digit_of(text[at as int]));
        }
        if digit != 0 {
            nonzero = true;
        }
        if !beyond {
            value = value * 10 + digit;
            if value > WHOLE_LIMIT {
                beyond = true;
            }
        }
        at = at + 1;
    }
    Digits { end: at, value, beyond, nonzero }
}

/// Reads the digits behind the point, from `from` on.
fn read_fraction(bytes: &[u8], from: usize, Ghost(text): Ghost<Seq<char>>) -> (run: Digits)
    requires
        spelled_by(text, bytes@),
        from <= bytes.len(),
    ensures
        from <= run.end <= bytes.len(),
        all_digits(text.subrange(from as int, run.end as int)),
        run.end < bytes.len() ==> !is_digit(text[run.end as int]),
        run.value == leading_fraction(text.subrange(from as int, run.end as int)),
        run.nonzero <==> digits_value(text.subrange(from as int, run.end as int)) > 0,
{
    let mut at: usize = from;
    let mut taken: usize = 0;
    let mut value: u64 = 0;
    let mut fill: u64 = 10_000;
    let mut nonzero = false;
    while at < bytes.len() && 48u8 <= bytes[at] && bytes[at] <= 57u8
        invariant
            from <= at <= bytes.len(),
            spelled_by(text, bytes@),
            taken <= 4,
            taken < 4 ==> taken == at - from,
            taken == 4 ==> at - from >= 4,
            all_digits(text.subrange(from as int, at as int)),
            value == digits_value(text.subrange(from as int, from + taken)),
            taken == 0 ==> value == 0 && fill == 10_000,
            taken == 1 ==> value < 10 && fill == 1000,
            taken == 2 ==> value < 100 && fill == 100,
            taken == 3 ==> value < 1000 && fill == 10,
            taken == 4 ==> value < 10_000 && fill == 1,
            nonzero <==> digits_value(text.subrange(from as int, at as int)) > 0,
        decreases bytes.len() - at,
    {
        let digit = (bytes[at] - 48u8) as u64;
        proof {
            lemma_next_digit(text, from as int, at as int);
            assert(is_digit(text[at as int]));
            assert(digit == digit_of(text[at as int]));
        }
        if digit != 0 {
            nonzero = true;
        }
        if taken < 4 {
            value = value * 10 + digit;
            fill = fill / 10;
            taken = taken + 1;
        }
        at = at + 1;
    }
    proof {
        let digits = text.subrange(from as int, at as int);
        lemma_small_powers();
        if digits.len() > 4 {
            assert(digits.take(4) =~= text.subrange(from as int, from + 4));
        }
    }
    Digits { end: at, value: value * fill, beyond: false, nonzero }
}

/// The parts of a decimal and what they come to. Where the digits from
/// the sign to `point` are followed by a point or by the end of the text,
/// and all behind that point are digits: the text splits there, its
/// ten-thousandths are those of the whole units and of the first four
/// digits behind the point, and it is above zero where one of its parts is.
proof fn lemma_decimal_value(text: Seq<char>, start: int, point: int)
    requires
        start == if is_negative(text) { 1int } else { 0int },
        start <= point <= text.len(),
        all_digits(text.subrange(start, point)),
        point < text.len() ==> text[point] == '.',
        point < text.len() ==> all_digits(text.subrange(point + 1, text.len() as int)),
    ensures
        whole_digits(text) == text.subrange(start, point),
        fraction_digits(text) == if point < text.len() {
            text.subrange(point + 1, text.len() as int)
        } else {
            Seq::empty()
        },
        all_digits(whole_digits(text)),
        all_digits(fraction_digits(text)),
        mantissa(text) > 0 <==> digits_value(whole_digits(text)) > 0 || digits_value(
            fraction_digits(text),
        ) > 0,
        ten_thousandths(text) == digits_value(whole_digits(text)) * 10_000 + leading_fraction(
            fraction_digits(text),
        ),
        leading_fraction(fraction_digits(text)) < 10_000,
{
    lemma_parts(text, start, point);
    lemma_mantissa_positive(whole_digits(text), fraction_digits(text));
    lemma_cut_off(whole_digits(text), fraction_digits(text));
}

/// The bytes of a text within the ASCII range are the codes of its
/// characters.
proof fn lemma_ascii_bytes(text: &str)
    requires
        text.is_ascii(),
    ensures
        spelled_by(text@, text.spec_bytes()),
{
    is_ascii_spec_bytes(text);
    let bytes = text.spec_bytes();
    assert forall|i: int| 0 <= i < text@.len() implies (#[trigger] text@[i]) as int
        == bytes[i] as int by {
        assert('\0' <= text@[i] <= '\u{7f}');
        assert(bytes[i] == text@[i] as u8);
    }
}

/// Reads an amount from the bytes of a decimal.
fn read_decimal(bytes: &[u8], Ghost(text): Ghost<Seq<char>>) -> (result: Result<
    Amount,
    InvalidAmount,
>)
    requires
        spelled_by(text, bytes@),
    ensures
        result == parse_decimal(text),
{
    let len = bytes.len();
    let negative = len > 0 && bytes[0] == 45u8;
    let start: usize = if negative {
        1
    } else {
        0
    };
    let whole = read_whole(bytes, start, Ghost(text));
    let point = whole.end;
    if point < len && bytes[point] != 46u8 {
        proof {
            lemma_spoiled_whole(text, start as int, point as int);
        }
        return Err(InvalidAmount::Malformed);
    }
    let first: usize = if point < len {
        point + 1
    } else {
        point
    };
    let fraction = read_fraction(bytes, first, Ghost(text));
    if fraction.end < len {
        proof {
            lemma_parts(text, start as int, point as int);
            lemma_spoiled_fraction(text, start as int, point as int, fraction.end as int);
        }
        return Err(InvalidAmount::Malformed);
    }
    proof {
        lemma_decimal_value(text, start as int, point as int);
    }
    if point - start + (len - first) == 0 {
        return Err(InvalidAmount::Malformed);
    }
    if negative && (whole.nonzero || fraction.nonzero) {
        return Err(InvalidAmount::Negative);
    }
    if whole.beyond {
        return Err(InvalidAmount::OutOfRange);
    }
    let value: u128 = whole.value as u128 * 10_000 + fraction.value as u128;
    if value > u64::MAX as u128 {
        Err(InvalidAmount::OutOfRange)
    } else {
        Ok(Amount(value as u64))
    }
}

impl Amount {
    /// Reads an amount from its decimal: an optional `-`, digits, and
    /// optionally a `.` with more digits. What is written behind the fourth
    /// decimal place is cut off.
    ///
    /// The text is turned down as `Malformed` where it is no decimal, as
    /// `Negative` where it is one below zero, and as `OutOfRange` where its
    /// ten-thousandths do not fit in an amount.
    pub fn from_decimal(text: &str) -> (result: Result<Amount, InvalidAmount>)
        ensures
            result == parse_decimal(text@),
    {
        if !text.is_ascii() {
            proof {
                if is_decimal(text@) {
                    lemma_decimal_is_ascii(text@);
                }
            }
            return Err(InvalidAmount::Malformed);
        }
        proof {
            lemma_ascii_bytes(text);
        }
        read_decimal(text.as_bytes(), Ghost(text@))
    }
}

/// The text of one digit.
fn digit_text(digit: u64) -> (text: &'static str)
    requires
        digit < 10,
    ensures
        text@ == seq![digit_char(digit as nat)],
{
    let text = if digit == 0 {
        proof {
            reveal_strlit("0");
        }
        "0"
    } else if digit == 1 {
        proof {
            reveal_strlit("1");
        }
        "1"
    } else if digit == 2 {
        proof {
            reveal_strlit("2");
        }
        "2"
    } else if digit == 3 {
        proof {
            reveal_strlit("3");
        }
        "3"
    } else if digit == 4 {
        proof {
            reveal_strlit("4");
        }
        "4"
    } else if digit == 5 {
        proof {
            reveal_strlit("5");
        }
        "5"
    } else if digit == 6 {
        proof {
            reveal_strlit("6");
        }
        "6"
    } else if digit == 7 {
        proof {
            reveal_strlit("7");
        }
        "7"
    } else if digit == 8 {
        proof {
            reveal_strlit("8");
        }
        "8"
    } else {
        proof {
            reveal_strlit("9");
        }
        "9"
    };
    assert(text@ =~= seq![digit_char(digit as nat)]);
    text
}

/// Writes the digits of `n` behind `text`.
fn push_digits(text: &mut String, n: u64)
    ensures
        final(text)@ == old(text)@ + decimal_digits(n as nat),
    decreases n,
{
    if n >= 10 {
        push_digits(text, n / 10);
    }
    text.append(digit_text(n % 10));
    assert(text@ =~= old(text)@ + decimal_digits(n as nat));
}

impl Amount {
    /// Writes the amount as a decimal: its whole units, a point, and
    /// exactly four digits behind it.
    pub fn to_decimal(self) -> (text: String)
        ensures
            text@ == render_decimal(self),
    {
        let units = self.0 / 10_000;
        let rest = self.0 % 10_000;
        let mut text = String::new();
        push_digits(&mut text, units);
        proof {
            reveal_strlit(".");
        }
        text.append(".");
        text.append(digit_text(rest / 1000));
        text.append(digit_text(rest / 100 % 10));
        text.append(digit_text(rest / 10 % 10));
        text.append(digit_text(rest % 10));
        assert(text@ =~= render_decimal(self));
        text
    }
}

/// A digit's character is a digit, and stands for it.
proof fn lemma_digit_char(d: nat)
    requires
        d < 10,
    ensures
        is_digit(digit_char(d)),
        digit_of(digit_char(d)) == d,
{
}

/// The digits of a number are digits, at least one, and spell the number.
pub proof fn lemma_decimal_digits(n: nat)
    ensures
        all_digits(decimal_digits(n)),
        decimal_digits(n).len() >= 1,
        digits_value(decimal_digits(n)) == n,
    decreases n,
{
    if n < 10 {
        lemma_digit_char(n);
        lemma_digits_value_push(Seq::empty(), digit_char(n));
        assert(Seq::<char>::empty().push(digit_char(n)) =~= decimal_digits(n));
    } else {
        lemma_decimal_digits(n / 10);
        lemma_digit_char(n % 10);
        lemma_digits_value_push(decimal_digits(n / 10), digit_char(n % 10));
    }
}

/// The four digits of a number below ten thousand are digits and spell
/// the number.
pub proof fn lemma_four_digits(n: nat)
    requires
        n < 10_000,
    ensures
        all_digits(four_digits(n)),
        four_digits(n).len() == 4,
        digits_value(four_digits(n)) == n,
{
    let one = seq![digit_char(n / 1000)];
    let two = one.push(digit_char(n / 100 % 10));
    let three = two.push(digit_char(n / 10 % 10));
    let four = three.push(digit_char(n % 10));
    lemma_digit_char(n / 1000);
    lemma_digit_char(n / 100 % 10);
    lemma_digit_char(n / 10 % 10);
    lemma_digit_char(n % 10);
    assert(digits_value(one) == n / 1000) by {
        assert(one =~= Seq::<char>::empty().push(digit_char(n / 1000)));
        lemma_digits_value_push(Seq::empty(), digit_char(n / 1000));
    }
    assert(digits_value(two) == n / 100) by {
        lemma_digits_value_push(one, digit_char(n / 100 % 10));
    }
    assert(digits_value(three) == n / 10) by {
        lemma_digits_value_push(two, digit_char(n / 10 % 10));
    }
    assert(digits_value(four) == n) by {
        lemma_digits_value_push(three, digit_char(n % 10));
    }
    assert(four =~= four_digits(n));
}

/// What an amount is written as: a decimal that is not negative, with the
/// whole units before the point and four digits behind it, whose digits
/// spell the count of ten-thousandths.
pub proof fn lemma_render_is_decimal(amount: Amount)
    ensures
        is_decimal(render_decimal(amount)),
        !is_negative(render_decimal(amount)),
        whole_digits(render_decimal(amount)) == decimal_digits(amount.0 as nat / 10_000),
        fraction_digits(render_decimal(amount)) == four_digits(amount.0 as nat % 10_000),
        mantissa(render_decimal(amount)) == amount.0,
        scale(render_decimal(amount)) == 4,
{
    let units = decimal_digits(amount.0 as nat / 10_000);
    let rest = four_digits(amount.0 as nat % 10_000);
    let text = render_decimal(amount);
    lemma_decimal_digits(amount.0 as nat / 10_000);
    lemma_four_digits(amount.0 as nat % 10_000);
    assert(text[0] == units[0]);
    assert(is_digit(units[0]));
    assert(unsigned(text) == text);
    assert forall|i: int| 0 <= i < units.len() implies text[i] != '.' by {
        assert(text[i] == units[i]);
        assert(is_digit(units[i]));
    }
    assert(text[units.len() as int] == '.');
    lemma_point_found(text, units.len() as int);
    assert(whole_digits(text) =~= units);
    assert(fraction_digits(text) =~= rest);
    lemma_digits_value_concat(units, rest);
    lemma_small_powers();
}

/// Reading what was written gives the amount back.
pub proof fn lemma_read_what_was_written(amount: Amount)
    ensures
        parse_decimal(render_decimal(amount)) == Ok::<Amount, InvalidAmount>(amount),
{
    lemma_render_is_decimal(amount);
    lemma_small_powers();
    let text = render_decimal(amount);
    assert(ten_thousandths(text) == amount.0) by {
        lemma_fundamental_div_mod_converse(amount.0 * 10_000, 10_000, amount.0 as int, 0);
    }
}

/// Writing what was read gives the decimal cut off behind the fourth
/// place: a decimal with four places that reads as the same amount, and
/// whose number is the largest count of ten-thousandths that does not
/// exceed the number of the text.
pub proof fn lemma_write_what_was_read(text: Seq<char>, amount: Amount)
    requires
        parse_decimal(text) == Ok::<Amount, InvalidAmount>(amount),
    ensures
        parse_decimal(render_decimal(amount)) == parse_decimal(text),
        scale(render_decimal(amount)) == 4,
        mantissa(render_decimal(amount)) == ten_thousandths(text),
        mantissa(render_decimal(amount)) * pow(10, scale(text)) <= mantissa(text) * 10_000,
        mantissa(text) * 10_000 < (mantissa(render_decimal(amount)) + 1) * pow(10, scale(text)),
{
    lemma_render_is_decimal(amount);
    lemma_read_what_was_written(amount);
    let x = (mantissa(text) * 10_000) as int;
    let d = pow(10, scale(text));
    lemma_pow_positive(10, scale(text));
    lemma_fundamental_div_mod(x, d);
    lemma_mod_pos_bound(x, d);
    let q = x / d;
    assert(q * d <= x && x < (q + 1) * d) by (nonlinear_arith)
        requires
            x == d * q + x % d,
            0 <= x % d < d,
    ;
}

} // verus!
