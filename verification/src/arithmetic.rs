//! Fixed-point and per-million numbers, on top of `sp_arithmetic`.
//!
//! A [`FixedU128`] holds a number as a count of `10^-18`, a [`Permill`] as a count of `10^-6`.

use crate::balance::{fitted, Balance};
use vstd::prelude::*;

verus! {

/// The inner value of one in the fixed-point domain.
pub const DIV: u128 = 1_000_000_000_000_000_000;

/// The parts of one in the per-million domain.
pub const MILLION: u32 = 1_000_000;

/// Reason for which a calculation has no result.
#[derive(Clone, Copy, PartialEq, Eq, Structural, Debug)]
pub enum ArithmeticError {
    /// The result is below the smallest representable value.
    Underflow,
    /// The result is above the greatest representable value.
    Overflow,
    /// The divisor is zero.
    DivisionByZero,
}

/// Direction in which a quotient is rounded to an integer.
#[derive(Clone, Copy, PartialEq, Eq, Structural, Debug)]
pub enum Rounding {
    /// To the next integer.
    Up,
    /// To the previous integer.
    Down,
    /// To the nearest integer, up between two equally near ones.
    NearestPrefUp,
    /// To the nearest integer, down between two equally near ones.
    NearestPrefDown,
}

/// `numerator / denominator`, rounded to an integer.
pub open spec fn rounded(numerator: int, denominator: int, rounding: Rounding) -> int {
    let down = numerator / denominator;
    let rest = numerator % denominator;
    let up = match rounding {
        Rounding::Up => rest > 0,
        Rounding::Down => false,
        Rounding::NearestPrefUp => 2 * rest >= denominator,
        Rounding::NearestPrefDown => 2 * rest > denominator,
    };
    if up {
        down + 1
    } else {
        down
    }
}

/// `a * b / c`, rounded to an integer, or `None` where it has no `u128` value.
pub open spec fn scaled(a: int, b: int, c: int, rounding: Rounding) -> Option<u128> {
    if c != 0 && rounded(a * b, c, rounding) <= u128::MAX {
        Some(rounded(a * b, c, rounding) as u128)
    } else {
        None
    }
}

/// The nearest value at or below `u128::MAX`.
pub open spec fn saturated(value: int) -> int {
    if value <= u128::MAX {
        value
    } else {
        u128::MAX as int
    }
}

/// `a - b`, or zero where that is negative.
pub open spec fn surplus(a: int, b: int) -> int {
    if a >= b {
        a - b
    } else {
        0
    }
}

/// The smaller of two numbers.
pub open spec fn least(a: int, b: int) -> int {
    if a <= b {
        a
    } else {
        b
    }
}

/// The greater of two numbers.
pub open spec fn greatest(a: int, b: int) -> int {
    if a >= b {
        a
    } else {
        b
    }
}

/// `sp_arithmetic::helpers_128bit::multiply_by_rational_with_rounding`: the product is taken in
/// 256 bits, so the quotient is exact before it is rounded; `None` for a zero divisor or a
/// rounded quotient above `u128::MAX`.
#[verifier::external_body]
pub(crate) fn multiply_by_rational(a: u128, b: u128, c: u128, rounding: Rounding) -> (product:
    Option<u128>)
    ensures
        product == scaled(a as int, b as int, c as int, rounding),
{
    let direction = match rounding {
        Rounding::Up => sp_arithmetic::Rounding::Up,
        Rounding::Down => sp_arithmetic::Rounding::Down,
        Rounding::NearestPrefUp => sp_arithmetic::Rounding::NearestPrefUp,
        Rounding::NearestPrefDown => sp_arithmetic::Rounding::NearestPrefDown,
    };
    sp_arithmetic::helpers_128bit::multiply_by_rational_with_rounding(a, b, c, direction)
}

/// `sp_arithmetic::FixedU128::checked_from_rational` on two integers: their quotient at
/// `10^-18` precision, rounded down; `None` for a zero divisor or a quotient that does not fit.
#[verifier::external_body]
fn fixed_checked_from_rational(n: u128, d: u128) -> (inner: Option<u128>)
    ensures
        inner == scaled(n as int, DIV as int, d as int, Rounding::Down),
{
    <sp_arithmetic::FixedU128 as sp_arithmetic::FixedPointNumber>::checked_from_rational(n, d).map(
        |fixed| fixed.into_inner(),
    )
}

/// `sp_arithmetic::FixedU128::from_rational`: the quotient at `10^-18` precision, rounded to the
/// nearest, down between two equally near ones. The outside function panics on a zero divisor and
/// on a quotient that does not fit.
#[verifier::external_body]
fn fixed_from_rational(a: u128, b: u128) -> (inner: u128)
    requires
        scaled(DIV as int, a as int, b as int, Rounding::NearestPrefDown) is Some,
    ensures
        Some(inner) == scaled(DIV as int, a as int, b as int, Rounding::NearestPrefDown),
{
    sp_arithmetic::FixedU128::from_rational(a, b).into_inner()
}

/// `sp_arithmetic::FixedU128::checked_mul_int` on an integer: the product rounded down to an
/// integer; `None` where it does not fit.
#[verifier::external_body]
fn fixed_checked_mul_int(inner: u128, n: u128) -> (product: Option<u128>)
    ensures
        product == scaled(inner as int, n as int, DIV as int, Rounding::Down),
{
    sp_arithmetic::FixedPointNumber::checked_mul_int(
        sp_arithmetic::FixedU128::from_inner(inner),
        n,
    )
}

/// `sp_arithmetic::FixedU128::saturating_mul`: the product rounded down, or the greatest value
/// where that does not fit.
#[verifier::external_body]
fn fixed_saturating_mul(a: u128, b: u128) -> (product: u128)
    ensures
        product == saturated(a * b / DIV as int),
{
    sp_arithmetic::traits::Saturating::saturating_mul(
        sp_arithmetic::FixedU128::from_inner(a),
        sp_arithmetic::FixedU128::from_inner(b),
    ).into_inner()
}

/// `sp_arithmetic::FixedU128::checked_div`: the quotient rounded down; `None` for a zero divisor
/// or a quotient that does not fit.
#[verifier::external_body]
fn fixed_checked_div(a: u128, b: u128) -> (quotient: Option<u128>)
    ensures
        quotient == scaled(a as int, DIV as int, b as int, Rounding::Down),
{
    sp_arithmetic::traits::CheckedDiv::checked_div(
        &sp_arithmetic::FixedU128::from_inner(a),
        &sp_arithmetic::FixedU128::from_inner(b),
    ).map(|fixed| fixed.into_inner())
}

/// The conversion of `sp_arithmetic::Permill` into `sp_arithmetic::FixedU128`: parts per million
/// become `10^-18`s without loss.
#[verifier::external_body]
fn fixed_from_permill(parts: u32) -> (inner: u128)
    requires
        parts <= MILLION,
    ensures
        inner == parts * 1_000_000_000_000,
{
    sp_arithmetic::FixedU128::from(sp_arithmetic::Permill::from_parts(parts)).into_inner()
}

/// A non-negative number with eighteen decimals, held as a count of `10^-18`.
#[derive(Clone, Copy, PartialEq, Eq, PartialOrd, Ord, Structural, Debug)]
pub struct FixedU128 {
    /// The number times `10^18`.
    pub inner: u128,
}

impl FixedU128 {
    /// The number that `inner` counts.
    pub fn from_inner(inner: u128) -> (fixed: FixedU128)
        ensures
            fixed.inner == inner,
    {
        FixedU128 { inner }
    }

    /// The count of `10^-18`.
    pub fn into_inner(self) -> (inner: u128)
        ensures
            inner == self.inner,
    {
        self.inner
    }

    /// Zero.
    pub fn zero() -> (fixed: FixedU128)
        ensures
            fixed.inner == 0,
    {
        FixedU128 { inner: 0 }
    }

    /// One.
    pub fn one() -> (fixed: FixedU128)
        ensures
            fixed.inner == DIV,
    {
        FixedU128 { inner: DIV }
    }

    /// Whether the number is zero.
    pub fn is_zero(&self) -> (zero: bool)
        ensures
            zero == (self.inner == 0),
    {
        self.inner == 0
    }

    /// The integer `n`.
    pub fn from_u32(n: u32) -> (fixed: FixedU128)
        ensures
            fixed.inner == n * DIV,
    {
        FixedU128 { inner: n as u128 * DIV }
    }

    /// `a / b`, to the nearest representable number, down between two equally near ones.
    pub fn from_rational(a: u128, b: u128) -> (fixed: FixedU128)
        requires
            scaled(DIV as int, a as int, b as int, Rounding::NearestPrefDown) is Some,
        ensures
            Some(fixed.inner) == scaled(DIV as int, a as int, b as int, Rounding::NearestPrefDown),
    {
        FixedU128 { inner: fixed_from_rational(a, b) }
    }

    /// `n / d` rounded down, or `None` for a zero divisor or a quotient that does not fit.
    pub fn checked_from_rational(n: u128, d: u128) -> (fixed: Option<FixedU128>)
        ensures
            fixed == fixed_of(scaled(n as int, DIV as int, d as int, Rounding::Down)),
    {
        match fixed_checked_from_rational(n, d) {
            Some(inner) => Some(FixedU128 { inner }),
            None => None,
        }
    }

    /// `self * n` rounded down to an integer, or `None` where that does not fit.
    pub fn checked_mul_int<B: Balance>(self, n: B) -> (product: Option<B>)
        ensures
            product == fitted::<B>(self.inner * n.amount() / DIV as int),
    {
        proof {
            n.holds_its_amount();
        }
        match fixed_checked_mul_int(self.inner, n.into_u128()) {
            Some(wide) => B::try_from_u128(wide),
            None => None,
        }
    }

    /// `self * n` rounded down to an integer, or the greatest balance where that does not fit.
    pub fn saturating_mul_int<B: Balance>(self, n: B) -> (product: B)
        ensures
            product.amount() == least(
                self.inner * n.amount() / DIV as int,
                B::limit() as int,
            ),
    {
        match self.checked_mul_int(n) {
            Some(product) => {
                proof {
                    B::of_holds((self.inner * n.amount() / DIV as int) as nat);
                }
                product
            },
            None => {
                assert(self.inner * n.amount() / DIV as int >= 0) by (nonlinear_arith)
                    requires
                        DIV == 1_000_000_000_000_000_000,
                        self.inner * n.amount() >= 0,
                ;
                B::max_value()
            },
        }
    }

    /// `self + rhs`, or the greatest number where that does not fit.
    pub fn saturating_add(self, rhs: FixedU128) -> (sum: FixedU128)
        ensures
            sum.inner == saturated(self.inner + rhs.inner),
    {
        FixedU128 { inner: self.inner.saturating_add(rhs.inner) }
    }

    /// `self - rhs`, or zero where that is negative.
    pub fn saturating_sub(self, rhs: FixedU128) -> (difference: FixedU128)
        ensures
            difference.inner == surplus(self.inner as int, rhs.inner as int),
    {
        FixedU128 { inner: self.inner.saturating_sub(rhs.inner) }
    }

    /// `self + rhs`, or `None` where that does not fit.
    pub fn checked_add(self, rhs: FixedU128) -> (sum: Option<FixedU128>)
        ensures
            sum == (if self.inner + rhs.inner <= u128::MAX {
                Some(FixedU128 { inner: (self.inner + rhs.inner) as u128 })
            } else {
                None
            }),
    {
        match self.inner.checked_add(rhs.inner) {
            Some(inner) => Some(FixedU128 { inner }),
            None => None,
        }
    }

    /// `self * rhs` rounded down, or the greatest number where that does not fit.
    pub fn saturating_mul(self, rhs: FixedU128) -> (product: FixedU128)
        ensures
            product.inner == saturated(self.inner * rhs.inner / DIV as int),
    {
        FixedU128 { inner: fixed_saturating_mul(self.inner, rhs.inner) }
    }

    /// `self / rhs` rounded down, or `None` for a zero divisor or a quotient that does not fit.
    pub fn checked_div(self, rhs: FixedU128) -> (quotient: Option<FixedU128>)
        ensures
            quotient == fixed_of(
                scaled(self.inner as int, DIV as int, rhs.inner as int, Rounding::Down),
            ),
    {
        match fixed_checked_div(self.inner, rhs.inner) {
            Some(inner) => Some(FixedU128 { inner }),
            None => None,
        }
    }

    /// The smaller of two numbers.
    pub fn min(self, rhs: FixedU128) -> (smaller: FixedU128)
        ensures
            smaller.inner == least(self.inner as int, rhs.inner as int),
    {
        if self.inner <= rhs.inner {
            self
        } else {
            rhs
        }
    }

    /// The greater of two numbers.
    pub fn max(self, rhs: FixedU128) -> (greater: FixedU128)
        ensures
            greater.inner == greatest(self.inner as int, rhs.inner as int),
    {
        if self.inner >= rhs.inner {
            self
        } else {
            rhs
        }
    }
}

/// The number that an inner value counts.
pub open spec fn fixed_of(inner: Option<u128>) -> Option<FixedU128> {
    match inner {
        Some(inner) => Some(FixedU128 { inner }),
        None => None,
    }
}

/// A share between zero and one, held as parts per million.
#[derive(Clone, Copy, PartialEq, Eq, PartialOrd, Ord, Structural, Debug)]
pub struct Permill {
    parts: u32,
}

impl Permill {
    /// A share is at most one.
    #[verifier::type_invariant]
    spec fn is_a_share(self) -> bool {
        self.parts <= MILLION
    }

    /// The parts per million.
    pub closed spec fn parts(self) -> int {
        self.parts as int
    }

    /// The share as an inner fixed-point value.
    pub open spec fn fixed(self) -> int {
        self.parts() * 1_000_000_000_000
    }

    /// A share is not negative.
    pub proof fn lemma_parts_are_natural(self)
        ensures
            0 <= self.parts(),
            0 <= self.fixed(),
    {
    }

    /// `parts` per million, at most one.
    pub fn from_parts(parts: u32) -> (share: Permill)
        ensures
            share.parts() == least(parts as int, MILLION as int),
    {
        if parts <= MILLION {
            Permill { parts }
        } else {
            Permill { parts: MILLION }
        }
    }

    /// `percent` per hundred, at most one.
    pub fn from_percent(percent: u32) -> (share: Permill)
        ensures
            share.parts() == least(percent * 10_000, MILLION as int),
    {
        if percent <= 100 {
            Permill { parts: percent * 10_000 }
        } else {
            Permill { parts: MILLION }
        }
    }

    /// Zero.
    pub fn zero() -> (share: Permill)
        ensures
            share.parts() == 0,
    {
        Permill { parts: 0 }
    }

    /// One.
    pub fn one() -> (share: Permill)
        ensures
            share.parts() == MILLION,
    {
        Permill { parts: MILLION }
    }

    /// The parts per million.
    pub fn deconstruct(self) -> (parts: u32)
        ensures
            parts == self.parts(),
            parts <= MILLION,
    {
        proof {
            use_type_invariant(&self);
        }
        self.parts
    }

    /// `self - rhs`, or zero where that is negative.
    pub fn saturating_sub(self, rhs: Permill) -> (share: Permill)
        ensures
            share.parts() == surplus(self.parts(), rhs.parts()),
    {
        proof {
            use_type_invariant(&self);
        }
        Permill { parts: self.parts.saturating_sub(rhs.parts) }
    }

    /// The share in the fixed-point domain, without loss.
    pub fn into_fixed(self) -> (fixed: FixedU128)
        ensures
            fixed.inner == self.fixed(),
            fixed.inner <= DIV,
    {
        proof {
            use_type_invariant(&self);
        }
        FixedU128 { inner: fixed_from_permill(self.parts) }
    }
}

} // verus!
