//! Price bands and numeric helpers.

use crate::decimal::{pow10, spec_parse, Decimal, MAX_SCALE, UNITS_LIMIT};
use crate::filter::error::SymbolFilterError;
use vstd::prelude::*;
use vstd::string::StringSliceAdditionalSpecFns;

verus! {

/// A price band between two bounds, in either order.
#[derive(Clone, Debug)]
pub struct Range<T>(pub T, pub T);

impl Range<Decimal> {
    /// The smaller bound, as a decimal.
    pub open spec fn spec_min_bound(self) -> Decimal {
        if self.0.units() < self.1.units() {
            self.0
        } else {
            self.1
        }
    }

    /// The larger bound, as a decimal.
    pub open spec fn spec_max_bound(self) -> Decimal {
        if self.0.units() < self.1.units() {
            self.1
        } else {
            self.0
        }
    }

    /// The smaller bound's value, in units.
    pub open spec fn spec_min_units(self) -> int {
        if self.0.units() < self.1.units() {
            self.0.units()
        } else {
            self.1.units()
        }
    }

    /// The larger bound's value, in units.
    pub open spec fn spec_max_units(self) -> int {
        if self.0.units() < self.1.units() {
            self.1.units()
        } else {
            self.0.units()
        }
    }

    /// The smaller bound, whichever position it sits in.
    pub fn min(&self) -> (r: Decimal)
        ensures
            r == self.spec_min_bound(),
            r.units() == self.spec_min_units(),
    {
        if self.0.lt(&self.1) {
            self.0
        } else {
            self.1
        }
    }

    /// The larger bound, whichever position it sits in.
    pub fn max(&self) -> (r: Decimal)
        ensures
            r == self.spec_max_bound(),
            r.units() == self.spec_max_units(),
    {
        if self.0.lt(&self.1) {
            self.1
        } else {
            self.0
        }
    }

    /// Strict membership: true exactly when the value lies strictly between
    /// the smaller and the larger bound, so a value at either bound is not
    /// within the range, and a range with equal bounds contains nothing.
    pub fn is_within(&self, value: &Decimal) -> (r: bool)
        ensures
            r == (self.spec_min_units() < value.units() < self.spec_max_units()),
    {
        let low = self.min();
        let high = self.max();
        low.lt(value) && value.lt(&high)
    }
}

/// Strict membership of a value in one given range.
pub open spec fn spec_is_within(v: int, r: Range<Decimal>) -> bool {
    r.spec_min_units() < v < r.spec_max_units()
}

/// Strict membership of a value in at least one of the ranges; false for an
/// empty list.
pub open spec fn spec_within_any(v: int, rs: Seq<Range<Decimal>>) -> bool {
    exists|i: int| 0 <= i < rs.len() && spec_is_within(v, rs[i])
}

/// True exactly when `value` lies strictly inside at least one range.
pub fn is_within_ranges(value: &Decimal, ranges: &Vec<Range<Decimal>>) -> (r: bool)
    ensures
        r == spec_within_any(value.units(), ranges@),
{
    if ranges.is_empty() {
        return false;
    }
    let len = ranges.len();
    let mut i: usize = 0;
    while i < len
        invariant
            i <= len,
            len == ranges@.len(),
            forall|j: int| 0 <= j < i ==> !spec_is_within(value.units(), #[trigger] ranges@[j]),
        decreases len - i,
    {
        let range = &ranges[i];
        if range.is_within(value) {
            return true;
        }
        i = i + 1;
    }
    false
}

/// Reads a decimal literal, reporting a malformed or out-of-range string as
/// a `Decimal` filter error.
pub fn to_decimal(value: &str) -> (r: Result<Decimal, SymbolFilterError>)
    ensures
        match spec_parse(value.spec_bytes()) {
            None => r == Result::<Decimal, SymbolFilterError>::Err(SymbolFilterError::Decimal),
            Some((neg, m, f)) => {
                if f <= MAX_SCALE && m * pow10((MAX_SCALE - f) as nat) <= UNITS_LIMIT as int {
                    &&& r is Ok
                    &&& r->Ok_0.spec_scale() == f
                    &&& r->Ok_0.spec_mantissa() == if neg {
                        -m
                    } else {
                        m
                    }
                } else {
                    r == Result::<Decimal, SymbolFilterError>::Err(SymbolFilterError::Decimal)
                }
            },
        },
{
    match Decimal::parse(value) {
        Some(d) => Ok(d),
        None => Err(SymbolFilterError::Decimal),
    }
}

} // verus!
