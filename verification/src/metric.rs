//! One measurement: a point with optional bounds.

use crate::decimal::Decimal;
use vstd::prelude::*;

verus! {

/// A measured value in nanoseconds, with the bounds of its interval where
/// the harness gave them. That the value lies between the bounds is meant,
/// and not checked.
#[derive(Clone, Copy, Debug, PartialEq, Eq)]
pub struct Metric {
    pub value: Decimal,
    pub lower_bound: Option<Decimal>,
    pub upper_bound: Option<Decimal>,
}

/// Why a sum or a quotient of metrics could not be given.
#[derive(Clone, Copy, Debug, PartialEq, Eq, Structural)]
pub enum ArithmeticError {
    /// A division by a count of zero.
    DivisionByZero,
    /// A result that is out of a `Decimal`'s range.
    OutOfRange,
}

/// The sum of two bounds: a bound where both are there and their sum is in
/// range, no bound where one of them is missing, and nothing where the sum
/// is out of range.
pub open spec fn bound_sum(a: Option<Decimal>, b: Option<Decimal>) -> Option<Option<Decimal>> {
    match (a, b) {
        (Some(x), Some(y)) => match Decimal::of(x@.plus(y@)) {
            Some(sum) => Some(Some(sum)),
            None => None,
        },
        _ => Some(None),
    }
}

/// A bound divided by a count: no bound where there was none, and nothing
/// where the quotient cannot be given.
pub open spec fn bound_quotient(a: Option<Decimal>, count: usize) -> Option<Option<Decimal>> {
    match a {
        Some(x) => match x.spec_divided_by(count) {
            Some(quotient) => Some(Some(quotient)),
            None => None,
        },
        None => Some(None),
    }
}

impl Metric {
    /// The metric with the smaller value; this one where the values are the
    /// same number.
    pub open spec fn spec_min(self, other: Metric) -> Metric {
        if other.value@.lt(self.value@) {
            other
        } else {
            self
        }
    }

    /// The metric with the larger value; the other one where the values are
    /// the same number.
    pub open spec fn spec_max(self, other: Metric) -> Metric {
        if other.value@.lt(self.value@) {
            self
        } else {
            other
        }
    }

    /// The sum of the two metrics, field by field, where every sum is in
    /// range.
    pub open spec fn spec_plus(self, other: Metric) -> Option<Metric> {
        match (
            Decimal::of(self.value@.plus(other.value@)),
            bound_sum(self.lower_bound, other.lower_bound),
            bound_sum(self.upper_bound, other.upper_bound),
        ) {
            (Some(value), Some(lower_bound), Some(upper_bound)) => Some(
                Metric { value, lower_bound, upper_bound },
            ),
            _ => None,
        }
    }

    /// The metric divided by a count, field by field, where every quotient
    /// can be given.
    pub open spec fn spec_divided_by(self, count: usize) -> Option<Metric> {
        match (
            self.value.spec_divided_by(count),
            bound_quotient(self.lower_bound, count),
            bound_quotient(self.upper_bound, count),
        ) {
            (Some(value), Some(lower_bound), Some(upper_bound)) => Some(
                Metric { value, lower_bound, upper_bound },
            ),
            _ => None,
        }
    }

    /// A metric of the given value and bounds.
    pub fn new(
        value: Decimal,
        lower_bound: Option<Decimal>,
        upper_bound: Option<Decimal>,
    ) -> (metric: Metric)
        ensures
            metric == (Metric { value, lower_bound, upper_bound }),
    {
        Metric { value, lower_bound, upper_bound }
    }

    /// The one of the two metrics with the smaller value, whole: its bounds
    /// come with it.
    pub fn min(self, other: Metric) -> (metric: Metric)
        ensures
            metric == self.spec_min(other),
    {
        if other.value.lt(&self.value) {
            other
        } else {
            self
        }
    }

    /// The one of the two metrics with the larger value, whole: its bounds
    /// come with it.
    pub fn max(self, other: Metric) -> (metric: Metric)
        ensures
            metric == self.spec_max(other),
    {
        if other.value.lt(&self.value) {
            self
        } else {
            other
        }
    }

    /// The sum of two optional bounds.
    fn plus_bound(a: Option<Decimal>, b: Option<Decimal>) -> (r: Option<Option<Decimal>>)
        ensures
            r == bound_sum(a, b),
    {
        match (a, b) {
            (Some(x), Some(y)) => match x.plus(&y) {
                Some(sum) => Some(Some(sum)),
                None => None,
            },
            _ => Some(None),
        }
    }

    /// The sum of the two metrics: the values added, and each bound added
    /// where both metrics have it.
    pub fn plus(self, other: Metric) -> (r: Option<Metric>)
        ensures
            r == self.spec_plus(other),
    {
        let value = match self.value.plus(&other.value) {
            Some(value) => value,
            None => {
                return None;
            },
        };
        let lower_bound = match Metric::plus_bound(self.lower_bound, other.lower_bound) {
            Some(bound) => bound,
            None => {
                return None;
            },
        };
        let upper_bound = match Metric::plus_bound(self.upper_bound, other.upper_bound) {
            Some(bound) => bound,
            None => {
                return None;
            },
        };
        Some(Metric { value, lower_bound, upper_bound })
    }

    /// An optional bound divided by a count.
    fn divide_bound(a: Option<Decimal>, count: usize) -> (r: Option<Option<Decimal>>)
        ensures
            r == bound_quotient(a, count),
    {
        match a {
            Some(x) => match x.divided_by(count) {
                Some(quotient) => Some(Some(quotient)),
                None => None,
            },
            None => Some(None),
        }
    }

    /// The metric with its value and its bounds divided by `count`.
    pub fn divided_by(self, count: usize) -> (r: Option<Metric>)
        ensures
            r == self.spec_divided_by(count),
    {
        let value = match self.value.divided_by(count) {
            Some(value) => value,
            None => {
                return None;
            },
        };
        let lower_bound = match Metric::divide_bound(self.lower_bound, count) {
            Some(bound) => bound,
            None => {
                return None;
            },
        };
        let upper_bound = match Metric::divide_bound(self.upper_bound, count) {
            Some(bound) => bound,
            None => {
                return None;
            },
        };
        Some(Metric { value, lower_bound, upper_bound })
    }
}

} // verus!
