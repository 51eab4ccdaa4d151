//! Checked arithmetic shared by accounting and price conversions.
//!
//! Callers choose rounding and handle failure according to their settlement policy.

use crate::arithmetic::{
    fixed_of, multiply_by_rational, rounded, scaled, ArithmeticError, FixedU128, Rounding, DIV,
};
use crate::balance::{fitted, Balance};
use crate::primitives::vault::DebtCollateral;
use vstd::prelude::*;

verus! {

/// Collateralization ratio of a position.
#[derive(Clone, Copy, PartialEq, Eq, Structural, Debug)]
pub enum CollateralRatio {
    /// The position has no debt, so no ratio.
    DebtFree,
    /// Collateral value per unit of debt.
    Ratio(FixedU128),
}

/// `value * numerator / denominator`, rounded, as a balance; `None` for a zero denominator or a
/// quotient that the balance type does not hold.
pub open spec fn mul_div_spec<B: Balance>(
    value: int,
    numerator: int,
    denominator: int,
    rounding: Rounding,
) -> Option<B> {
    if denominator == 0 {
        None
    } else {
        fitted::<B>(rounded(value * numerator, denominator, rounding))
    }
}

/// `floor(floor(price * collateral) / debt)` in the fixed-point domain; `DebtFree` without debt,
/// `Overflow` where the value or the ratio does not fit.
pub open spec fn collateralization_ratio_spec<B: Balance>(
    position: DebtCollateral<B>,
    price: FixedU128,
) -> Result<CollateralRatio, ArithmeticError> {
    let value = price.inner * position.collateral.amount() / DIV as int;
    if position.debt.amount() == 0 {
        Ok(CollateralRatio::DebtFree)
    } else if value > B::limit() {
        Err(ArithmeticError::Overflow)
    } else {
        match scaled(value, DIV as int, position.debt.amount() as int, Rounding::Down) {
            Some(inner) => Ok(CollateralRatio::Ratio(FixedU128 { inner })),
            None => Err(ArithmeticError::Overflow),
        }
    }
}

/// A rounded quotient of non-negative numbers is non-negative.
pub proof fn lemma_rounded_is_natural(numerator: int, denominator: int, rounding: Rounding)
    requires
        0 <= numerator,
        0 < denominator,
    ensures
        0 <= numerator / denominator,
        0 <= rounded(numerator, denominator, rounding),
{
    assert(0 <= numerator / denominator) by (nonlinear_arith)
        requires
            0 <= numerator,
            0 < denominator,
    ;
}

/// `value * numerator / denominator`, rounded as specified.
///
/// The product uses wide arithmetic, so it may exceed `u128` if the quotient fits. Returns `None`
/// for a zero denominator or a quotient out of the balance's range. Raw operands allow
/// fixed-point factors wider than the balance.
pub fn mul_div<B: Balance>(
    value: u128,
    numerator: u128,
    denominator: u128,
    rounding: Rounding,
) -> (quotient: Option<B>)
    ensures
        quotient == mul_div_spec::<B>(
            value as int,
            numerator as int,
            denominator as int,
            rounding,
        ),
{
    let wide = multiply_by_rational(value, numerator, denominator, rounding);
    proof {
        B::max_holds();
        if denominator != 0 {
            assert(0 <= value * numerator) by (nonlinear_arith);
            lemma_rounded_is_natural(value * numerator, denominator as int, rounding);
        }
    }
    match wide {
        Some(raw) => B::try_from_u128(raw),
        None => None,
    }
}

/// `ceil(value * rate)`, or `None` if the result does not fit.
pub fn mul_rate_ceil<B: Balance>(value: B, rate: FixedU128) -> (product: Option<B>)
    ensures
        product == mul_div_spec::<B>(
            value.amount() as int,
            rate.inner as int,
            DIV as int,
            Rounding::Up,
        ),
{
    mul_div(value.into_u128(), rate.inner, DIV, Rounding::Up)
}

/// The collateralization ratio of `position` at `price`.
///
/// `DebtFree` without debt; `Overflow` when the value or the ratio does not fit.
pub fn collateralization_ratio<B: Balance>(
    position: &DebtCollateral<B>,
    price: FixedU128,
) -> (ratio: Result<CollateralRatio, ArithmeticError>)
    ensures
        ratio == collateralization_ratio_spec(*position, price),
{
    let debt = position.debt.into_u128();
    if debt == 0 {
        return Ok(CollateralRatio::DebtFree);
    }
    proof {
        assert(0 <= price.inner * position.collateral.amount()) by (nonlinear_arith);
        lemma_rounded_is_natural(
            price.inner * position.collateral.amount(),
            DIV as int,
            Rounding::Down,
        );
    }
    let value = match price.checked_mul_int(position.collateral) {
        Some(value) => value,
        None => {
            return Err(ArithmeticError::Overflow);
        },
    };
    proof {
        B::of_holds((price.inner * position.collateral.amount() / DIV as int) as nat);
    }
    match FixedU128::checked_from_rational(value.into_u128(), debt) {
        Some(ratio) => Ok(CollateralRatio::Ratio(ratio)),
        None => Err(ArithmeticError::Overflow),
    }
}

/// `floor(value * numerator / denominator)`; fails as [`mul_div`] does.
pub fn mul_div_floor<B: Balance>(value: B, numerator: B, denominator: B) -> (quotient: Option<B>)
    ensures
        quotient == mul_div_spec::<B>(
            value.amount() as int,
            numerator.amount() as int,
            denominator.amount() as int,
            Rounding::Down,
        ),
{
    mul_div(value.into_u128(), numerator.into_u128(), denominator.into_u128(), Rounding::Down)
}

/// `floor(value * rate / denominator)` as a fixed-point delta per unit.
///
/// Returns `Some(0)` for a zero value or rate. Returns `None` for a zero denominator or overflow.
pub fn mul_div_rate_floor<B: Balance>(value: B, rate: FixedU128, denominator: B) -> (delta: Option<
    FixedU128,
>)
    ensures
        delta == (if value.amount() == 0 || rate.inner == 0 {
            Some(FixedU128 { inner: 0 })
        } else {
            fixed_of(
                scaled(
                    value.amount() as int,
                    rate.inner as int,
                    denominator.amount() as int,
                    Rounding::Down,
                ),
            )
        }),
{
    let amount = value.into_u128();
    if amount == 0 || rate.is_zero() {
        return Some(FixedU128::zero());
    }
    match multiply_by_rational(amount, rate.inner, denominator.into_u128(), Rounding::Down) {
        Some(inner) => Some(FixedU128 { inner }),
        None => None,
    }
}

/// `floor(value / price)`, or `None` for a zero price or output overflow.
pub fn collateral_for_value_floor<B: Balance>(value: B, price: FixedU128) -> (collateral: Option<B>)
    ensures
        collateral == mul_div_spec::<B>(
            value.amount() as int,
            DIV as int,
            price.inner as int,
            Rounding::Down,
        ),
{
    mul_div(value.into_u128(), DIV, price.inner, Rounding::Down)
}

/// `ceil(value / price)`, or `None` for a zero price or output overflow.
pub fn collateral_for_value_ceil<B: Balance>(value: B, price: FixedU128) -> (collateral: Option<B>)
    ensures
        collateral == mul_div_spec::<B>(
            value.amount() as int,
            DIV as int,
            price.inner as int,
            Rounding::Up,
        ),
{
    mul_div(value.into_u128(), DIV, price.inner, Rounding::Up)
}

} // verus!
