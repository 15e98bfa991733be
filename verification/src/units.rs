//! Units of time, and what each is in nanoseconds.

use crate::decimal::{lemma_pow10_step, lemma_pow10_values, pow10, Dec, Decimal};
use crate::error::{AdapterError, ErrorView};
use crate::text::{chars_of, found};
use vstd::prelude::*;

verus! {

/// A unit of time that a harness reports in.
#[derive(Clone, Copy, Debug, PartialEq, Eq, Structural)]
pub enum Units {
    Pico,
    Nano,
    Micro,
    Milli,
    Sec,
}

/// The unit whose name is `c` followed by the letter s.
pub open spec fn unit_before_s(c: char) -> Option<Units> {
    if c == 'p' {
        Some(Units::Pico)
    } else if c == 'n' {
        Some(Units::Nano)
    } else if c == '\u{3bc}' || c == '\u{b5}' {
        Some(Units::Micro)
    } else if c == 'm' {
        Some(Units::Milli)
    } else {
        None
    }
}

/// The unit whose name stands in `s` at `at`, and where the name ends. The
/// names are ps, ns, the letter s after either the Greek letter mu or the
/// micro sign, ms, and s.
pub open spec fn units_at(s: Seq<char>, at: int) -> Option<(Units, int)> {
    if 0 <= at && at + 1 < s.len() && unit_before_s(s[at]) is Some && s[at + 1] == 's' {
        Some((unit_before_s(s[at]).unwrap(), at + 2))
    } else if 0 <= at < s.len() && s[at] == 's' {
        Some((Units::Sec, at + 1))
    } else {
        None
    }
}

/// The unit that the whole of `text` names.
pub open spec fn unit_named(text: Seq<char>) -> Option<Units> {
    match units_at(text, 0) {
        Some((unit, end)) => if end == text.len() {
            Some(unit)
        } else {
            None
        },
        None => None,
    }
}

/// The unit whose name is `c` followed by the letter s.
fn before_s(c: char) -> (r: Option<Units>)
    ensures
        r == unit_before_s(c),
{
    if c == 'p' {
        Some(Units::Pico)
    } else if c == 'n' {
        Some(Units::Nano)
    } else if c == '\u{3bc}' || c == '\u{b5}' {
        Some(Units::Micro)
    } else if c == 'm' {
        Some(Units::Milli)
    } else {
        None
    }
}

/// The unit whose name stands in `chars` at `at`, and where the name ends.
pub fn parse_units(chars: &Vec<char>, at: usize) -> (r: Option<(Units, usize)>)
    ensures
        found(r, units_at(chars@, at as int)),
        r matches Some((_, end)) ==> at < end <= chars.len(),
{
    if at < chars.len() {
        if chars.len() - at > 1 && chars[at + 1] == 's' {
            match before_s(chars[at]) {
                Some(unit) => {
                    return Some((unit, at + 2));
                },
                None => {},
            }
        }
        if chars[at] == 's' {
            return Some((Units::Sec, at + 1));
        }
    }
    None
}

impl Units {
    /// The unit that the characters name.
    pub fn from_chars(chars: &Vec<char>) -> (r: Option<Units>)
        ensures
            r == unit_named(chars@),
    {
        match parse_units(chars, 0) {
            Some((unit, end)) => if end == chars.len() {
                Some(unit)
            } else {
                None
            },
            None => None,
        }
    }

    /// The unit that `text` names, or `InvalidUnit` with the text where it
    /// names none.
    pub fn from_str(text: &str) -> (r: Result<Units, AdapterError>)
        ensures
            match r {
                Ok(unit) => unit_named(text@) == Some(unit),
                Err(error) => unit_named(text@) is None && error@ == ErrorView::InvalidUnit(text@),
            },
    {
        let chars = chars_of(text);
        match Units::from_chars(&chars) {
            Some(unit) => Ok(unit),
            None => Err(AdapterError::InvalidUnit(text.to_owned())),
        }
    }

    /// The power of ten by which the unit differs from the nanosecond.
    pub open spec fn exponent(self) -> int {
        match self {
            Units::Pico => -3,
            Units::Nano => 0,
            Units::Micro => 3,
            Units::Milli => 6,
            Units::Sec => 9,
        }
    }

    /// The number of nanoseconds in one of the unit.
    pub open spec fn factor(self) -> Dec {
        match self {
            Units::Pico => Dec { mantissa: 1, scale: 3 },
            Units::Nano => Dec { mantissa: 1, scale: 0 },
            Units::Micro => Dec { mantissa: 1_000, scale: 0 },
            Units::Milli => Dec { mantissa: 1_000_000, scale: 0 },
            Units::Sec => Dec { mantissa: 1_000_000_000, scale: 0 },
        }
    }

    /// Multiplying by a unit's factor moves the decimal point by the unit's
    /// exponent.
    pub proof fn lemma_factor(self, amount: Dec)
        ensures
            amount.times(self.factor()) == amount.times_pow10(self.exponent()),
    {
        lemma_pow10_values();
        lemma_pow10_step(0);
        let m = amount.mantissa;
        let f = self.factor().mantissa;
        if self.exponent() >= 0 {
            let p = pow10(self.exponent() as nat);
            assert(m * f == m * p) by (nonlinear_arith)
                requires
                    f == p,
            ;
        } else {
            assert(m * 1 == m);
        }
    }

    /// The number of nanoseconds in one of the unit.
    pub fn as_nanos(&self) -> (factor: Decimal)
        ensures
            factor@ == self.factor(),
    {
        match self {
            Units::Pico => {
                match Decimal::from_integer(1).times_pow10(-3) {
                    Some(factor) => factor,
                    None => Decimal::from_integer(0),
                }
            },
            Units::Nano => Decimal::from_integer(1),
            Units::Micro => Decimal::from_integer(1_000),
            Units::Milli => Decimal::from_integer(1_000_000),
            Units::Sec => Decimal::from_integer(1_000_000_000),
        }
    }

    /// The amount, given in this unit, in nanoseconds; nothing where that is
    /// out of a `Decimal`'s range.
    pub fn to_nanos(&self, amount: &Decimal) -> (r: Option<Decimal>)
        ensures
            r == Decimal::of(amount@.times(self.factor())),
    {
        proof {
            self.lemma_factor(amount@);
        }
        let exponent: i32 = match self {
            Units::Pico => -3,
            Units::Nano => 0,
            Units::Micro => 3,
            Units::Milli => 6,
            Units::Sec => 9,
        };
        amount.times_pow10(exponent)
    }
}

} // verus!
