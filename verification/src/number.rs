//! Numbers as harnesses write them: digits with an optional decimal point
//! and with grouping commas, which do not count.

use crate::decimal::{
    lemma_mul_pow10_zero, lemma_normal_is_normal, lemma_normal_strip, lemma_pow10_step, pow10,
    scale_up, Dec, Decimal, MAX_MANTISSA,
};
use crate::error::{AdapterError, ErrorView};
use crate::text::{
    chars_of, found_end, in_class, is_digit, is_in_class, scan, scan_while, CharClass,
};
use vstd::prelude::*;

verus! {

/// The value of a digit.
pub open spec fn digit_value(c: char) -> int {
    c as int - '0' as int
}

/// Whether every character is a digit, a decimal point or a comma.
pub open spec fn all_numeric(run: Seq<char>) -> bool
    decreases run.len(),
{
    run.len() == 0 || (in_class(CharClass::Numeric, run.last()) && all_numeric(run.drop_last()))
}

/// The number of digits.
pub open spec fn count_digits(run: Seq<char>) -> nat
    decreases run.len(),
{
    if run.len() == 0 {
        0
    } else if is_digit(run.last()) {
        count_digits(run.drop_last()) + 1
    } else {
        count_digits(run.drop_last())
    }
}

/// The number of decimal points.
pub open spec fn count_points(run: Seq<char>) -> nat
    decreases run.len(),
{
    if run.len() == 0 {
        0
    } else if run.last() == '.' {
        count_points(run.drop_last()) + 1
    } else {
        count_points(run.drop_last())
    }
}

/// The number of digits after the last decimal point; of all digits where
/// there is no point.
pub open spec fn digits_after_point(run: Seq<char>) -> nat
    decreases run.len(),
{
    if run.len() == 0 {
        0
    } else if run.last() == '.' {
        0
    } else if is_digit(run.last()) {
        digits_after_point(run.drop_last()) + 1
    } else {
        digits_after_point(run.drop_last())
    }
}

/// The whole number that the digits spell, read without the other
/// characters.
pub open spec fn digits_value(run: Seq<char>) -> nat
    decreases run.len(),
{
    if run.len() == 0 {
        0
    } else if is_digit(run.last()) {
        (digits_value(run.drop_last()) * 10 + digit_value(run.last())) as nat
    } else {
        digits_value(run.drop_last())
    }
}

/// Whether the characters spell a number: digits, points and commas only,
/// at least one digit, at most one point.
pub open spec fn is_number(run: Seq<char>) -> bool {
    all_numeric(run) && count_digits(run) >= 1 && count_points(run) <= 1
}

/// The number of fractional digits of a number.
pub open spec fn number_scale(run: Seq<char>) -> nat {
    if count_points(run) == 0 {
        0
    } else {
        digits_after_point(run)
    }
}

/// The number that the characters spell, as written: all its digits as the
/// mantissa, those after the point as the scale.
pub open spec fn number_value(run: Seq<char>) -> Dec {
    Dec { mantissa: digits_value(run) as int, scale: number_scale(run) }
}

/// The `Decimal` that the characters spell. Nothing where they spell no
/// number, and nothing where the number is out of range.
pub open spec fn number_of(run: Seq<char>) -> Option<Decimal> {
    if is_number(run) {
        Decimal::of(number_value(run))
    } else {
        None
    }
}

/// Whether a mantissa, a scale and a count of fractional zeros that wait
/// for a digit after them are what was read of a number of the value
/// `value`.
spec fn is_read(value: Dec, mantissa: int, scale: int, waiting: int) -> bool {
    &&& 0 <= scale <= u32::MAX
    &&& 0 <= waiting
    &&& 0 <= mantissa <= MAX_MANTISSA
    &&& scale > 0 ==> mantissa % 10 != 0
    &&& value == Dec { mantissa: mantissa * pow10(waiting as nat), scale: (scale + waiting) as nat }
}

/// A number that is out of range stays out of range as a digit is written
/// after it, be it a digit of the whole part or a fractional one.
proof fn lemma_out_of_range_stays(m: int, f: nat, d: int, fractional: bool)
    requires
        m >= 0,
        0 <= d <= 9,
        !fractional ==> f == 0,
        !(Dec { mantissa: m, scale: f }).normal().in_range(),
    ensures
        !(Dec {
            mantissa: 10 * m + d,
            scale: if fractional {
                f + 1
            } else {
                f
            },
        }).normal().in_range(),
{
    let before = Dec { mantissa: m, scale: f };
    let shortest = before.normal();
    lemma_normal_is_normal(before);
    lemma_pow10_step((f - shortest.scale) as nat);
    let p = pow10((f - shortest.scale) as nat);
    assert(shortest.mantissa >= 0 && shortest.mantissa <= m) by (nonlinear_arith)
        requires
            m == shortest.mantissa * p,
            p >= 1,
            m >= 0,
    ;
    if fractional && d != 0 {
        let after = Dec { mantissa: 10 * m + d, scale: f + 1 };
        lemma_normal_is_normal(after);
    }
}

/// The digit that follows the fractional zeros that wait for it joins the
/// mantissa behind them.
proof fn lemma_digit_after_zeros(m: int, k: nat, d: int)
    ensures
        10 * (m * pow10(k)) + d == m * pow10(k + 1) + d,
{
    lemma_pow10_step(k);
    assert(10 * (m * pow10(k)) == m * pow10(k + 1)) by (nonlinear_arith)
        requires
            pow10(k + 1) == 10 * pow10(k),
    ;
}

/// Where the number that begins at `at` ends: after the last of the digits,
/// points and commas that follow one another from `at` on. Nothing where
/// there is none at `at`.
pub open spec fn float_at(s: Seq<char>, at: int) -> Option<int> {
    if scan(s, at, CharClass::Numeric) > at {
        Some(scan(s, at, CharClass::Numeric))
    } else {
        None
    }
}

/// Where the run of digits, points and commas that begins at `at` ends;
/// nothing where no such character stands at `at`.
pub fn parse_float(chars: &Vec<char>, at: usize) -> (r: Option<usize>)
    ensures
        found_end(r, float_at(chars@, at as int)),
        r matches Some(end) ==> at < end <= chars.len(),
{
    let end = scan_while(chars, at, CharClass::Numeric);
    if end > at {
        Some(end)
    } else {
        None
    }
}

/// The number that the characters from `from` up to `to` spell.
pub fn to_decimal(chars: &Vec<char>, from: usize, to: usize) -> (r: Option<Decimal>)
    requires
        from <= to <= chars.len(),
    ensures
        r == number_of(chars@.subrange(from as int, to as int)),
{
    let ghost run = chars@.subrange(from as int, to as int);
    let mut mantissa: i128 = 0;
    let mut scale: usize = 0;
    let mut waiting: usize = 0;
    let mut too_large: bool = false;
    let mut numeric: bool = true;
    let mut digits: usize = 0;
    let mut points: usize = 0;
    let mut after_point: usize = 0;
    let mut i: usize = from;
    proof {
        lemma_mul_pow10_zero(0);
    }
    while i < to
        invariant
            from <= i <= to <= chars.len(),
            run == chars@.subrange(from as int, to as int),
            numeric == all_numeric(run.take(i - from)),
            digits == count_digits(run.take(i - from)),
            points == count_points(run.take(i - from)),
            after_point == digits_after_point(run.take(i - from)),
            digits <= i - from,
            points <= i - from,
            after_point <= i - from,
            digits_value(run.take(i - from)) >= 0,
            points <= 1 && !too_large ==> is_read(
                number_value(run.take(i - from)),
                mantissa as int,
                scale as int,
                waiting as int,
            ),
            points == 0 ==> scale == 0 && waiting == 0,
            points == 1 && !too_large ==> scale + waiting == after_point,
            points <= 1 && too_large ==> !number_value(run.take(i - from)).normal().in_range(),
        decreases to - i,
    {
        let c = chars[i];
        let ghost before = number_value(run.take(i - from));
        proof {
            assert(run.take(i + 1 - from).drop_last() =~= run.take(i - from));
            assert(run.take(i + 1 - from).last() == c);
        }
        if !is_in_class(CharClass::Numeric, c) {
            numeric = false;
        }
        if '0' <= c && c <= '9' {
            let digit: i128 = (c as u32 - '0' as u32) as i128;
            digits = digits + 1;
            after_point = after_point + 1;
            if points <= 1 {
                if too_large {
                    proof {
                        lemma_out_of_range_stays(
                            before.mantissa,
                            before.scale,
                            digit as int,
                            points == 1,
                        );
                    }
                } else if points == 0 {
                    proof {
                        lemma_mul_pow10_zero(mantissa as int);
                        lemma_mul_pow10_zero(mantissa * 10 + digit);
                    }
                    if mantissa > (MAX_MANTISSA - digit) / 10 {
                        too_large = true;
                    } else {
                        mantissa = mantissa * 10 + digit;
                    }
                } else if digit == 0 {
                    proof {
                        lemma_digit_after_zeros(mantissa as int, waiting as nat, 0);
                    }
                    waiting = waiting + 1;
                } else {
                    let ghost after = number_value(run.take(i + 1 - from));
                    proof {
                        lemma_digit_after_zeros(mantissa as int, waiting as nat, digit as int);
                        lemma_mul_pow10_zero(after.mantissa);
                        lemma_normal_is_normal(after);
                    }
                    let deeper: usize = scale + waiting + 1;
                    if deeper > u32::MAX as usize {
                        too_large = true;
                    } else {
                        match scale_up(mantissa, (waiting + 1) as u32) {
                            None => {
                                too_large = true;
                            },
                            Some(shifted) => {
                                if shifted > MAX_MANTISSA - digit {
                                    too_large = true;
                                } else {
                                    mantissa = shifted + digit;
                                    scale = deeper;
                                    waiting = 0;
                                }
                            },
                        }
                    }
                }
            }
        } else if c == '.' {
            points = points + 1;
            after_point = 0;
        }
        i = i + 1;
    }
    proof {
        assert(run.take(to - from) =~= run);
    }
    if !numeric || digits == 0 || points > 1 || too_large {
        proof {
            Decimal::lemma_of_is_same(number_value(run));
        }
        None
    } else {
        proof {
            lemma_normal_strip(mantissa as int, waiting as nat, (scale + waiting) as nat);
            Decimal::lemma_of_normal(
                number_value(run),
                Dec { mantissa: mantissa as int, scale: scale as nat },
            );
        }
        Decimal::new(mantissa, scale as u32)
    }
}

/// The number that the text spells, or `InvalidNumber` with the text where
/// it spells none that can be held.
pub fn parse_number(text: &str) -> (r: Result<Decimal, AdapterError>)
    ensures
        match r {
            Ok(number) => number_of(text@) == Some(number),
            Err(error) => number_of(text@) is None && error@ == ErrorView::InvalidNumber(text@),
        },
{
    let chars = chars_of(text);
    proof {
        assert(chars@.subrange(0, chars.len() as int) =~= chars@);
    }
    match to_decimal(&chars, 0, chars.len()) {
        Some(number) => Ok(number),
        None => Err(AdapterError::InvalidNumber(text.to_owned())),
    }
}

} // verus!
