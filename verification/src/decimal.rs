//! Numbers as text: decimal integers, and amounts of money with up to four
//! fractional digits, read into fixed point.
//!
//! An amount is held as an `i64` that counts ten-thousandths of a currency
//! unit, so `1.5` is `15000` and every amount with four fractional digits is
//! exact.
use vstd::arithmetic::div_mod::{
    lemma_div_denominator, lemma_fundamental_div_mod, lemma_fundamental_div_mod_converse,
};
use vstd::prelude::*;

verus! {

/// How many fixed-point units make one currency unit.
pub const SCALE: u64 = 10_000;

/// The largest whole part whose amount may still fit in an `i64`.
const WHOLE_LIMIT: u64 = 922_337_203_685_477;

/// Whether `c` is one of the decimal digits `0` to `9`.
pub open spec fn is_digit(c: char) -> bool {
    '0' <= c && c <= '9'
}

/// The value of a decimal digit.
pub open spec fn digit_of(c: char) -> nat {
    (c as int - '0' as int) as nat
}

/// Every character is a decimal digit.
pub open spec fn all_digits(text: Seq<char>) -> bool {
    forall|i: int| 0 <= i < text.len() ==> is_digit(#[trigger] text[i])
}

/// The number that a string of digits denotes in base ten.
pub open spec fn digits_value(digits: Seq<char>) -> nat
    decreases digits.len(),
{
    if digits.len() == 0 {
        0
    } else {
        digits_value(digits.drop_last()) * 10 + digit_of(digits.last())
    }
}

/// The first position at or after `from` that holds no digit.
pub open spec fn digits_end(text: Seq<char>, from: int) -> int
    decreases text.len() - from,
{
    if 0 <= from < text.len() && is_digit(text[from]) {
        digits_end(text, from + 1)
    } else {
        from
    }
}

/// `digits_end` is where the run of digits that starts at `from` stops.
pub proof fn lemma_digits_end(text: Seq<char>, from: int)
    requires
        0 <= from <= text.len(),
    ensures
        from <= digits_end(text, from) <= text.len(),
        all_digits(text.subrange(from, digits_end(text, from))),
        digits_end(text, from) < text.len() ==> !is_digit(text[digits_end(text, from)]),
    decreases text.len() - from,
{
    if from < text.len() && is_digit(text[from]) {
        lemma_digits_end(text, from + 1);
        let end = digits_end(text, from);
        assert forall|i: int| 0 <= i < end - from implies is_digit(
            #[trigger] text.subrange(from, end)[i],
        ) by {
            if i > 0 {
                assert(text.subrange(from, end)[i] == text.subrange(from + 1, end)[i - 1]);
            }
        }
    }
}

/// The number that `text` denotes, if it is a non-empty string of digits.
pub open spec fn unsigned_of(text: Seq<char>) -> Option<nat> {
    if text.len() > 0 && all_digits(text) {
        Some(digits_value(text))
    } else {
        None
    }
}

/// The number that `text` denotes, if it is a non-empty string of digits and
/// the number is at most `limit`.
pub open spec fn unsigned_up_to(text: Seq<char>, limit: nat) -> Option<nat> {
    match unsigned_of(text) {
        Some(n) => if n <= limit {
            Some(n)
        } else {
            None
        },
        None => None,
    }
}

/// The digit of a fraction at place `place` after the point; places past
/// the end of the fraction hold zero.
pub open spec fn fraction_digit(fraction: Seq<char>, place: int) -> nat {
    if 0 <= place < fraction.len() {
        digit_of(fraction[place])
    } else {
        0
    }
}

/// The first four digits of a fraction, in ten-thousandths.
pub open spec fn fraction_value(fraction: Seq<char>) -> nat {
    fraction_digit(fraction, 0) * 1000 + fraction_digit(fraction, 1) * 100 + fraction_digit(
        fraction,
        2,
    ) * 10 + fraction_digit(fraction, 3)
}

/// A fraction that ten-thousandths hold exactly: digits only, and nothing
/// but zeros after the fourth.
pub open spec fn exact_fraction(fraction: Seq<char>) -> bool {
    &&& all_digits(fraction)
    &&& forall|i: int| 4 <= i < fraction.len() ==> #[trigger] fraction[i] == '0'
}

/// The whole part of the unsigned decimal that starts at `start`.
pub open spec fn whole_part(text: Seq<char>, start: int) -> Seq<char> {
    text.subrange(start, digits_end(text, start))
}

/// The digits after the decimal point of the unsigned decimal that starts at
/// `start`; empty if the whole part is all there is.
pub open spec fn fraction_part(text: Seq<char>, start: int) -> Seq<char> {
    let dot = digits_end(text, start);
    if dot < text.len() {
        text.subrange(dot + 1, text.len() as int)
    } else {
        Seq::empty()
    }
}

/// The ten-thousandths that the unsigned decimal in `text` from `start` on
/// denotes: digits, then optionally a point and more digits, with at least
/// one digit in all, and no precision beyond the fourth fractional digit.
pub open spec fn magnitude_of(text: Seq<char>, start: int) -> Option<nat> {
    let dot = digits_end(text, start);
    let whole = whole_part(text, start);
    let fraction = fraction_part(text, start);
    if (dot == text.len() || text[dot] == '.') && exact_fraction(fraction) && whole.len()
        + fraction.len() > 0 {
        Some(digits_value(whole) * (SCALE as nat) + fraction_value(fraction))
    } else {
        None
    }
}

/// Whether `text` starts with a sign.
pub open spec fn has_sign(text: Seq<char>) -> bool {
    text.len() > 0 && (text[0] == '-' || text[0] == '+')
}

/// The amount that `text` denotes, in ten-thousandths: an optional sign and
/// an unsigned decimal, where the signed number fits in an `i64`. Anything
/// else denotes no amount.
pub open spec fn amount_of(text: Seq<char>) -> Option<i64> {
    let start: int = if has_sign(text) {
        1
    } else {
        0
    };
    match magnitude_of(text, start) {
        Some(magnitude) => {
            let value: int = if has_sign(text) && text[0] == '-' {
                -magnitude
            } else {
                magnitude as int
            };
            if i64::MIN <= value <= i64::MAX {
                Some(value as i64)
            } else {
                None
            }
        },
        None => None,
    }
}

/// Reads the digit at `text[at]`, if it is one.
fn digit_at(text: &Vec<char>, at: usize) -> (digit: Option<u64>)
    requires
        at < text.len(),
    ensures
        match digit {
            Some(d) => is_digit(text@[at as int]) && d == digit_of(text@[at as int]) && d <= 9,
            None => !is_digit(text@[at as int]),
        },
{
    let c = text[at];
    if '0' <= c && c <= '9' {
        Some((c as u32 - '0' as u32) as u64)
    } else {
        None
    }
}

/// Reads the run of digits that starts at `start`. Returns where the run
/// ends and the number it denotes, or `None` in place of a number above
/// `limit`.
fn scan_digits(text: &Vec<char>, start: usize, limit: u64) -> (scan: (usize, Option<u64>))
    requires
        start <= text.len(),
        limit <= WHOLE_LIMIT,
    ensures
        scan.0 == digits_end(text@, start as int),
        start <= scan.0 <= text.len(),
        match scan.1 {
            Some(n) => n == digits_value(text@.subrange(start as int, scan.0 as int)) && n
                <= limit,
            None => digits_value(text@.subrange(start as int, scan.0 as int)) > limit,
        },
{
    let mut at = start;
    let mut value: u64 = 0;
    let mut fits = true;
    while at < text.len()
        invariant
            start <= at <= text.len(),
            limit <= WHOLE_LIMIT,
            digits_end(text@, start as int) == digits_end(text@, at as int),
            fits ==> value == digits_value(text@.subrange(start as int, at as int)),
            fits ==> value <= limit,
            !fits ==> digits_value(text@.subrange(start as int, at as int)) > limit,
        ensures
            at < text.len() ==> !is_digit(text@[at as int]),
        decreases text.len() - at,
    {
        match digit_at(text, at) {
            None => { break ; },
            Some(d) => {
                proof {
                    let longer = text@.subrange(start as int, at + 1);
                    assert(longer.drop_last() =~= text@.subrange(start as int, at as int));
                    assert(longer.last() == text@[at as int]);
                }
                if fits {
                    value = value * 10 + d;
                    if value > limit {
                        fits = false;
                    }
                }
                at = at + 1;
            },
        }
    }
    if fits {
        (at, Some(value))
    } else {
        (at, None)
    }
}

/// Reads a non-empty string of digits as a number of at most `limit`.
fn parse_unsigned(text: &Vec<char>, limit: u64) -> (number: Option<u64>)
    requires
        limit <= WHOLE_LIMIT,
    ensures
        match unsigned_up_to(text@, limit as nat) {
            Some(n) => number == Some(n as u64),
            None => number is None,
        },
{
    proof {
        lemma_digits_end(text@, 0);
        assert(text@.subrange(0, text@.len() as int) =~= text@);
    }
    let (end, value) = scan_digits(text, 0, limit);
    if text.len() == 0 || end < text.len() {
        None
    } else {
        value
    }
}

/// Reads a client id: a non-empty string of decimal digits that denotes a
/// number of 16 bits.
pub fn parse_client_id(text: &Vec<char>) -> (id: Option<u16>)
    ensures
        match unsigned_up_to(text@, u16::MAX as nat) {
            Some(n) => id == Some(n as u16),
            None => id is None,
        },
{
    match parse_unsigned(text, 0xffff) {
        Some(n) => Some(n as u16),
        None => None,
    }
}

/// Reads a transaction id: a non-empty string of decimal digits that
/// denotes a number of 32 bits.
pub fn parse_transaction_id(text: &Vec<char>) -> (id: Option<u32>)
    ensures
        match unsigned_up_to(text@, u32::MAX as nat) {
            Some(n) => id == Some(n as u32),
            None => id is None,
        },
{
    match parse_unsigned(text, 0xffff_ffff) {
        Some(n) => Some(n as u32),
        None => None,
    }
}

/// The ten-thousandths that the first `places` digits of a fraction
/// contribute.
spec fn fraction_value_upto(fraction: Seq<char>, places: int) -> nat {
    (if places > 0 {
        fraction_digit(fraction, 0) * 1000
    } else {
        0
    }) + (if places > 1 {
        fraction_digit(fraction, 1) * 100
    } else {
        0
    }) + (if places > 2 {
        fraction_digit(fraction, 2) * 10
    } else {
        0
    }) + (if places > 3 {
        fraction_digit(fraction, 3)
    } else {
        0
    })
}

/// Reads an amount of money: an optional sign, digits, and optionally a
/// point and more digits, as in `12`, `-0.5`, `3.1415` or `.25`. The result
/// counts ten-thousandths. Text of any other shape, a fifth fractional digit
/// other than zero, and an amount beyond the range of `i64` give `None`.
pub fn parse_amount(text: &Vec<char>) -> (amount: Option<i64>)
    ensures
        amount == amount_of(text@),
{
    let signed = text.len() > 0 && (text[0] == '-' || text[0] == '+');
    let negative = signed && text[0] == '-';
    let start: usize = if signed {
        1
    } else {
        0
    };
    let (dot, whole) = scan_digits(text, start, WHOLE_LIMIT);
    let ghost fraction_text = fraction_part(text@, start as int);
    let mut fraction: u64 = 0;
    if dot < text.len() {
        if text[dot] != '.' {
            return None;
        }
        let mut at = dot + 1;
        while at < text.len()
            invariant
                dot < at <= text.len(),
                start <= dot,
                signed == has_sign(text@),
                start == (if signed {
                    1int
                } else {
                    0int
                }),
                dot == digits_end(text@, start as int),
                text@[dot as int] == '.',
                fraction_text == text@.subrange(dot + 1, text@.len() as int),
                forall|i: int| 0 <= i < at - dot - 1 ==> is_digit(#[trigger] fraction_text[i]),
                forall|i: int| 4 <= i < at - dot - 1 ==> #[trigger] fraction_text[i] == '0',
                fraction == fraction_value_upto(fraction_text, at - dot - 1),
                fraction <= 9999,
            decreases text.len() - at,
        {
            let place = at - dot - 1;
            assert(fraction_text[place as int] == text@[at as int]);
            match digit_at(text, at) {
                None => {
                    return None;
                },
                Some(d) => {
                    if place == 0 {
                        fraction = fraction + d * 1000;
                    } else if place == 1 {
                        fraction = fraction + d * 100;
                    } else if place == 2 {
                        fraction = fraction + d * 10;
                    } else if place == 3 {
                        fraction = fraction + d;
                    } else if d != 0 {
                        return None;
                    }
                },
            }
            at = at + 1;
        }
    }
    if dot == start && (dot == text.len() || dot + 1 == text.len()) {
        return None;
    }
    match whole {
        None => None,
        Some(units) => {
            let magnitude = units * SCALE + fraction;
            if negative {
                if magnitude > i64::MAX as u64 + 1 {
                    None
                } else if magnitude == i64::MAX as u64 + 1 {
                    Some(i64::MIN)
                } else {
                    Some(-(magnitude as i64))
                }
            } else if magnitude > i64::MAX as u64 {
                None
            } else {
                Some(magnitude as i64)
            }
        },
    }
}

/// The character of a decimal digit.
pub open spec fn digit_char(digit: nat) -> char {
    ('0' as int + digit) as char
}

/// A natural number in base ten, without leading zeros.
pub open spec fn decimal_text(n: nat) -> Seq<char>
    decreases n,
{
    if n < 10 {
        seq![digit_char(n)]
    } else {
        decimal_text(n / 10).push(digit_char(n % 10))
    }
}

/// The four fractional digits of a magnitude in ten-thousandths.
pub open spec fn fraction_text(magnitude: nat) -> Seq<char> {
    seq![
        digit_char(magnitude / 1000 % 10),
        digit_char(magnitude / 100 % 10),
        digit_char(magnitude / 10 % 10),
        digit_char(magnitude % 10),
    ]
}

/// An amount in ten-thousandths as text with exactly four fractional
/// digits: `15000` is `1.5000` and `-1` is `-0.0001`.
pub open spec fn amount_text(value: int) -> Seq<char> {
    let magnitude = (if value < 0 {
        -value
    } else {
        value
    }) as nat;
    let sign = if value < 0 {
        seq!['-']
    } else {
        Seq::<char>::empty()
    };
    sign + decimal_text(magnitude / SCALE as nat) + seq!['.'] + fraction_text(magnitude)
}

/// The text of one decimal digit.
fn digit_text(digit: u64) -> (text: &'static str)
    requires
        digit <= 9,
    ensures
        text@ == seq![digit_char(digit as nat)],
{
    proof {
        reveal_strlit("0");
        reveal_strlit("1");
        reveal_strlit("2");
        reveal_strlit("3");
        reveal_strlit("4");
        reveal_strlit("5");
        reveal_strlit("6");
        reveal_strlit("7");
        reveal_strlit("8");
        reveal_strlit("9");
    }
    let text = if digit == 0 {
        "0"
    } else if digit == 1 {
        "1"
    } else if digit == 2 {
        "2"
    } else if digit == 3 {
        "3"
    } else if digit == 4 {
        "4"
    } else if digit == 5 {
        "5"
    } else if digit == 6 {
        "6"
    } else if digit == 7 {
        "7"
    } else if digit == 8 {
        "8"
    } else {
        "9"
    };
    assert(text@ =~= seq![digit_char(digit as nat)]);
    text
}

/// Appends `n` in base ten to `out`.
pub fn append_decimal(out: &mut String, n: u64)
    ensures
        final(out)@ == old(out)@ + decimal_text(n as nat),
    decreases n,
{
    if n >= 10 {
        append_decimal(out, n / 10);
    }
    out.append(digit_text(n % 10));
    assert(out@ =~= old(out)@ + decimal_text(n as nat));
}

/// Appends an amount in ten-thousandths to `out`, with four fractional
/// digits.
pub fn append_amount(out: &mut String, value: i64)
    ensures
        final(out)@ == old(out)@ + amount_text(value as int),
{
    let magnitude: u64 = if value < 0 {
        out.append("-");
        (-(value + 1)) as u64 + 1
    } else {
        value as u64
    };
    append_decimal(out, magnitude / SCALE);
    out.append(".");
    out.append(digit_text(magnitude / 1000 % 10));
    out.append(digit_text(magnitude / 100 % 10));
    out.append(digit_text(magnitude / 10 % 10));
    out.append(digit_text(magnitude % 10));
    proof {
        reveal_strlit("-");
        reveal_strlit(".");
        assert("-"@ =~= seq!['-']);
        assert("."@ =~= seq!['.']);
        assert(out@ =~= old(out)@ + amount_text(value as int));
    }
}

/// An amount in ten-thousandths as text with four fractional digits.
pub fn render_amount(value: i64) -> (text: String)
    ensures
        text@ == amount_text(value as int),
{
    let mut text = String::new();
    append_amount(&mut text, value);
    assert(text@ =~= amount_text(value as int));
    text
}

/// A digit's character is a digit, and denotes that digit.
pub proof fn lemma_digit_char(digit: nat)
    requires
        digit <= 9,
    ensures
        is_digit(digit_char(digit)),
        digit_of(digit_char(digit)) == digit,
{
}

/// The decimal text of a number is a non-empty string of digits that
/// denotes the number.
pub proof fn lemma_decimal_text(n: nat)
    ensures
        decimal_text(n).len() > 0,
        all_digits(decimal_text(n)),
        digits_value(decimal_text(n)) == n,
    decreases n,
{
    if n < 10 {
        lemma_digit_char(n);
        assert(decimal_text(n).drop_last() =~= Seq::<char>::empty());
        assert(digits_value(decimal_text(n).drop_last()) == 0);
    } else {
        lemma_decimal_text(n / 10);
        lemma_digit_char(n % 10);
        assert(decimal_text(n).drop_last() =~= decimal_text(n / 10));
    }
}

/// A run of digits that starts at `from` and is not followed by a digit ends
/// where `digits_end` says.
pub proof fn lemma_digits_end_is(text: Seq<char>, from: int, end: int)
    requires
        0 <= from <= end <= text.len(),
        forall|i: int| from <= i < end ==> is_digit(#[trigger] text[i]),
        end < text.len() ==> !is_digit(text[end]),
    ensures
        digits_end(text, from) == end,
    decreases end - from,
{
    if from < end {
        lemma_digits_end_is(text, from + 1, end);
    }
}

/// The four digits of a number in ten-thousandths add up to its remainder
/// by ten thousand.
proof fn lemma_four_digits(n: nat)
    ensures
        (n / 1000 % 10) * 1000 + (n / 100 % 10) * 100 + (n / 10 % 10) * 10 + n % 10 == n % 10000,
{
    let n = n as int;
    let tens = n / 10;
    let hundreds = n / 100;
    let thousands = n / 1000;
    let rest = n / 10000;
    lemma_div_denominator(n, 10, 10);
    lemma_div_denominator(n, 100, 10);
    lemma_div_denominator(n, 1000, 10);
    assert(hundreds == tens / 10);
    assert(thousands == hundreds / 10);
    assert(rest == thousands / 10);
    lemma_fundamental_div_mod(n, 10);
    lemma_fundamental_div_mod(tens, 10);
    lemma_fundamental_div_mod(hundreds, 10);
    lemma_fundamental_div_mod(thousands, 10);
    let low = (thousands % 10) * 1000 + (hundreds % 10) * 100 + (tens % 10) * 10 + n % 10;
    assert(n == rest * 10000 + low);
    lemma_fundamental_div_mod_converse(n, 10000, rest, low);
}

/// The fraction text of a magnitude is exact and denotes its remainder by
/// ten thousand.
proof fn lemma_fraction_text(magnitude: nat)
    ensures
        fraction_text(magnitude).len() == 4,
        exact_fraction(fraction_text(magnitude)),
        fraction_value(fraction_text(magnitude)) == magnitude % 10000,
{
    lemma_digit_char(magnitude / 1000 % 10);
    lemma_digit_char(magnitude / 100 % 10);
    lemma_digit_char(magnitude / 10 % 10);
    lemma_digit_char(magnitude % 10);
    lemma_four_digits(magnitude);
}

/// The unsigned decimal that is written for `magnitude` behind `sign`
/// denotes `magnitude`.
proof fn lemma_magnitude_is_read_back(sign: Seq<char>, magnitude: nat)
    ensures
        magnitude_of(
            sign + decimal_text(magnitude / 10000) + seq!['.'] + fraction_text(magnitude),
            sign.len() as int,
        ) == Some(magnitude),
{
    let whole = decimal_text(magnitude / 10000);
    let fraction = fraction_text(magnitude);
    let text = sign + whole + seq!['.'] + fraction;
    let start = sign.len() as int;
    let dot = start + whole.len();
    lemma_decimal_text(magnitude / 10000);
    lemma_fraction_text(magnitude);
    assert(text.len() == dot + 5);
    assert(text[dot] == '.');
    assert forall|i: int| start <= i < dot implies is_digit(#[trigger] text[i]) by {
        assert(text[i] == whole[i - start]);
    }
    lemma_digits_end_is(text, start, dot);
    assert(text.subrange(start, dot) =~= whole);
    assert(text.subrange(dot + 1, text.len() as int) =~= fraction);
}

/// What is written is read back: the text of an amount denotes that amount.
pub proof fn lemma_amount_text_is_read_back(value: i64)
    ensures
        amount_of(amount_text(value as int)) == Some(value),
{
    let magnitude = (if value < 0 {
        -value
    } else {
        value as int
    }) as nat;
    let sign = if value < 0 {
        seq!['-']
    } else {
        Seq::<char>::empty()
    };
    let whole = decimal_text(magnitude / 10000);
    let text = amount_text(value as int);
    lemma_decimal_text(magnitude / 10000);
    lemma_magnitude_is_read_back(sign, magnitude);
    assert(text[sign.len() as int] == whole[0]);
    assert(has_sign(text) == (value < 0));
}

} // verus!
