//! Exact decimal numbers with six fractional digits.
//!
//! Every metric value, bound, mean and index of this crate is a [`Fixed`]: a
//! signed count of millionths. Sums are carried in `i128`, where they cannot
//! overflow; a result that leaves the range of `Fixed` is clamped to its ends,
//! and a quotient is rounded toward negative infinity. No `Fixed` is infinite
//! or undefined: where a figure has no value, none is given.

use vstd::prelude::*;

verus! {

/// The number of units in one whole.
pub const SCALE: i64 = 1_000_000;

/// A decimal number, held as a count of millionths.
#[derive(Clone, Copy, Debug, PartialEq, Eq, Structural)]
pub struct Fixed {
    pub units: i64,
}

impl View for Fixed {
    type V = int;

    open spec fn view(&self) -> int {
        self.units as int
    }
}

/// The nearest count of units that a [`Fixed`] can hold.
pub open spec fn clamp(x: int) -> int {
    if x < i64::MIN {
        i64::MIN as int
    } else if x > i64::MAX {
        i64::MAX as int
    } else {
        x
    }
}

/// The units of an optional number.
pub open spec fn units_of(x: Option<Fixed>) -> Option<int> {
    match x {
        Some(v) => Some(v@),
        None => None,
    }
}

/// The units of each number of a list.
pub open spec fn units_seq(s: Seq<Fixed>) -> Seq<int> {
    s.map_values(|x: Fixed| x@)
}

/// The quotient of `a` by `b`, both in units, as a count of units, rounded
/// down and clamped; none where `b` is zero.
pub open spec fn ratio_of(a: int, b: int) -> Option<int> {
    if b == 0 {
        None
    } else if b > 0 {
        Some(clamp((a * 1_000_000) / b))
    } else {
        Some(clamp((-a * 1_000_000) / (-b)))
    }
}

/// `x` divided by the positive `d`, rounded toward negative infinity.
pub fn floor_div(x: i128, d: i128) -> (q: i128)
    requires
        d > 0,
    ensures
        q == x / d,
{
    assert(i128::MIN <= x / d <= i128::MAX) by (nonlinear_arith)
        requires
            d > 0,
            i128::MIN <= x <= i128::MAX,
    ;
    match x.checked_div_euclid(d) {
        Some(q) => q,
        None => 0,
    }
}

impl Fixed {
    /// The number zero.
    pub fn zero() -> (r: Fixed)
        ensures
            r@ == 0,
    {
        Fixed { units: 0 }
    }

    /// The largest number that can be held.
    pub fn max_value() -> (r: Fixed)
        ensures
            r@ == i64::MAX,
    {
        Fixed { units: i64::MAX }
    }

    /// The smallest number that can be held.
    pub fn min_value() -> (r: Fixed)
        ensures
            r@ == i64::MIN,
    {
        Fixed { units: i64::MIN }
    }

    /// The number that is `units` millionths.
    pub fn from_units(units: i64) -> (r: Fixed)
        ensures
            r@ == units,
    {
        Fixed { units }
    }

    /// The whole number `n`, clamped into range.
    pub fn from_int(n: i64) -> (r: Fixed)
        ensures
            r@ == clamp(n * SCALE),
    {
        let wide: i128 = (n as i128) * 1_000_000;
        Fixed::saturating(wide)
    }

    /// The number nearest to `units` millionths that can be held.
    pub fn saturating(units: i128) -> (r: Fixed)
        ensures
            r@ == clamp(units as int),
    {
        if units < i64::MIN as i128 {
            Fixed { units: i64::MIN }
        } else if units > i64::MAX as i128 {
            Fixed { units: i64::MAX }
        } else {
            Fixed { units: units as i64 }
        }
    }

    /// This number divided by `divisor`, rounded down and clamped into range;
    /// none where the divisor is zero.
    pub fn ratio(self, divisor: Fixed) -> (r: Option<Fixed>)
        ensures
            units_of(r) == ratio_of(self@, divisor@),
    {
        if divisor.units == 0 {
            None
        } else if divisor.units > 0 {
            let n: i128 = (self.units as i128) * 1_000_000;
            Some(Fixed::saturating(floor_div(n, divisor.units as i128)))
        } else {
            let n: i128 = -(self.units as i128) * 1_000_000;
            Some(Fixed::saturating(floor_div(n, -(divisor.units as i128))))
        }
    }
}

} // verus!
