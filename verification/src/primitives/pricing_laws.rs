//! What conversions and settlement prices come to, stated on amounts.

use crate::arithmetic::{rounded, ArithmeticError, FixedU128, Rounding, DIV};
use crate::balance::Balance;
use crate::primitives::error::DispatchError;
use crate::primitives::math::{collateralization_ratio_spec, mul_div_spec, CollateralRatio};
use crate::primitives::oracle::repriced;
use crate::primitives::recovery_pricing::{
    bonus_payout, cover_spec, recovery_bonus_spec, recovery_rate_spec, valued_collateral,
};
use crate::primitives::vault::DebtCollateral;
use vstd::arithmetic::div_mod::lemma_fundamental_div_mod;
use vstd::prelude::*;

verus! {

/// A quotient between its neighbours.
proof fn lemma_between(numerator: int, denominator: int)
    requires
        0 < denominator,
    ensures
        (numerator / denominator) * denominator <= numerator < (numerator / denominator + 1)
            * denominator,
        numerator == (numerator / denominator) * denominator + numerator % denominator,
        0 <= numerator % denominator < denominator,
{
    lemma_fundamental_div_mod(numerator, denominator);
    let q = numerator / denominator;
    assert(denominator * q == q * denominator) by (nonlinear_arith);
    assert((q + 1) * denominator == q * denominator + denominator) by (nonlinear_arith);
}

/// Rounding down gives the greatest integer at or below the quotient, rounding up the least at or
/// above it, and rounding to the nearest one that is at most half a unit off, up or down between two
/// as the direction says.
pub proof fn law_rounding(numerator: int, denominator: int)
    requires
        0 < denominator,
    ensures
        ({
            let down = rounded(numerator, denominator, Rounding::Down);
            let up = rounded(numerator, denominator, Rounding::Up);
            let near_up = rounded(numerator, denominator, Rounding::NearestPrefUp);
            let near_down = rounded(numerator, denominator, Rounding::NearestPrefDown);
            &&& down * denominator <= numerator < (down + 1) * denominator
            &&& (up - 1) * denominator < numerator <= up * denominator
            &&& (2 * near_up - 1) * denominator <= 2 * numerator < (2 * near_up + 1) * denominator
            &&& (2 * near_down - 1) * denominator < 2 * numerator <= (2 * near_down + 1)
                * denominator
        }),
{
    lemma_between(numerator, denominator);
    let q = numerator / denominator;
    let part = q * denominator;
    assert((q + 1) * denominator == part + denominator && (q - 1) * denominator == part
        - denominator && (q + 2) * denominator == part + 2 * denominator) by (nonlinear_arith)
        requires
            part == q * denominator,
    ;
    assert((2 * q - 1) * denominator == 2 * part - denominator && (2 * q + 1) * denominator == 2
        * part + denominator && (2 * (q + 1) - 1) * denominator == 2 * part + denominator && (2 * (q
        + 1) + 1) * denominator == 2 * part + 3 * denominator) by (nonlinear_arith)
        requires
            part == q * denominator,
    ;
}

/// A product over a divisor is rounded as asked, and is missing exactly for a zero divisor or where
/// the balance type does not hold it.
pub proof fn law_conversion_rounds_as_asked<B: Balance>(
    value: u128,
    numerator: u128,
    denominator: u128,
    rounding: Rounding,
)
    ensures
        denominator == 0 ==> mul_div_spec::<B>(
            value as int,
            numerator as int,
            denominator as int,
            rounding,
        ) is None,
        denominator > 0 ==> match mul_div_spec::<B>(
            value as int,
            numerator as int,
            denominator as int,
            rounding,
        ) {
            Some(quotient) => quotient.amount() == rounded(
                value * numerator,
                denominator as int,
                rounding,
            ),
            None => rounded(value * numerator, denominator as int, rounding) > B::limit(),
        },
{
    if denominator > 0 {
        assert(0 <= value * numerator) by (nonlinear_arith);
        crate::primitives::math::lemma_rounded_is_natural(
            value * numerator,
            denominator as int,
            rounding,
        );
        let quotient = rounded(value * numerator, denominator as int, rounding);
        if quotient <= B::limit() {
            B::of_holds(quotient as nat);
        }
    }
}

/// A recovery bonus is nothing up to a ratio of one and the buffer, and above that the excess, as far
/// as it is within the penalty.
pub proof fn law_bonus_is_the_excess_within_the_penalty(cr: int, buffer: int, penalty: int)
    requires
        0 <= cr,
        0 <= buffer,
        0 <= penalty,
    ensures
        ({
            let bonus = recovery_bonus_spec(cr, buffer, penalty);
            &&& cr <= DIV + buffer ==> bonus == 0
            &&& DIV + buffer < cr <= DIV + buffer + penalty ==> DIV + buffer + bonus == cr
            &&& DIV + buffer + penalty < cr ==> bonus == penalty
        }),
{
}

/// What an amount valued at a factor buys at a price is exact: `value` is what it comes to and `out`
/// what that buys, both rounded down, and nothing where either does not fit.
pub proof fn law_valued_collateral<B: Balance>(
    amount: int,
    factor: int,
    price: int,
    value: int,
    out: int,
)
    requires
        0 <= amount,
        0 <= factor,
        0 < price,
        value * DIV <= amount * factor < (value + 1) * DIV,
        out * price <= value * DIV < (out + 1) * price,
    ensures
        match valued_collateral::<B>(amount, factor, price) {
            Some(collateral) => value <= B::limit() && collateral.amount() == out,
            None => value > B::limit() || out > B::limit(),
        },
{
    assert(factor * amount == amount * factor && 0 <= amount * factor) by (nonlinear_arith)
        requires
            0 <= amount,
            0 <= factor,
    ;
    lemma_between(amount * factor, DIV as int);
    let found = amount * factor / DIV as int;
    assert(found == value) by (nonlinear_arith)
        requires
            found * DIV <= amount * factor < (found + 1) * DIV,
            value * DIV <= amount * factor < (value + 1) * DIV,
            DIV > 0,
    ;
    assert(0 <= value) by {
        crate::primitives::math::lemma_rounded_is_natural(
            amount * factor,
            DIV as int,
            Rounding::Down,
        );
    }
    lemma_between(value * DIV, price);
    let bought = value * DIV / price;
    assert(bought == out) by (nonlinear_arith)
        requires
            bought * price <= value * DIV < (bought + 1) * price,
            out * price <= value * DIV < (out + 1) * price,
            price > 0,
    ;
    assert(0 <= out) by {
        crate::primitives::math::lemma_rounded_is_natural(value * DIV, price, Rounding::Down);
    }
    if out <= B::limit() {
        B::of_holds(out as nat);
    }
}

/// A bonus payout is what the payment buys when it is valued at one and the bonus.
pub proof fn law_bonus_payout_is_the_payment_and_bonus<B: Balance>(
    paid: int,
    bonus: int,
    price: int,
    value: int,
    out: int,
)
    requires
        0 <= paid,
        0 <= bonus,
        0 < price,
        value * DIV <= paid * (DIV + bonus) < (value + 1) * DIV,
        out * price <= value * DIV < (out + 1) * price,
    ensures
        match bonus_payout::<B>(paid, bonus, price) {
            Some(collateral) => collateral.amount() == out,
            None => DIV + bonus > u128::MAX || value > B::limit() || out > B::limit(),
        },
        DIV + bonus <= u128::MAX && value <= B::limit() && out <= B::limit() ==> bonus_payout::<B>(
            paid,
            bonus,
            price,
        ) is Some,
{
    law_valued_collateral::<B>(paid, DIV + bonus, price, value, out);
    if DIV + bonus <= u128::MAX && value <= B::limit() && out <= B::limit() {
        assert(valued_collateral::<B>(paid, DIV + bonus, price) is Some);
    }
}

/// An insurance-adjusted split covers the whole shortfall where the fund suffices, else what the fund
/// has, and values the market's debt at the collateral's value over it, rounded down.
pub proof fn law_split_shares_the_value(debt: int, value: int, available: int)
    requires
        0 <= value <= debt,
        0 <= available,
    ensures
        ({
            let cover = cover_spec(debt, value, available);
            let market = debt - cover;
            let rate = recovery_rate_spec(value, market);
            &&& debt - value <= available ==> cover == debt - value
            &&& available < debt - value ==> cover == available
            &&& market == 0 ==> rate == 0
            &&& market > 0 ==> rate * market <= value * DIV < (rate + 1) * market
        }),
{
    let market = debt - cover_spec(debt, value, available);
    if market > 0 {
        lemma_between(value * DIV, market);
    }
}

/// A reference amount converts by the ratio of two prices, rounded up: the asset amount is worth at
/// least as much, and one unit less would not be. A price of zero is an unusable feed. Of two
/// failures only a missing one beside another gives way, the asset's going first.
pub proof fn law_conversion_is_worth_the_balance(
    balance: u128,
    asset: Result<FixedU128, DispatchError>,
    reference: Result<FixedU128, DispatchError>,
)
    ensures
        ({
            let amount = repriced::<u128>(balance, asset, reference);
            let zero = DispatchError::Other("zero oracle price");
            let asset_failure = match asset {
                Err(error) => Some(error),
                Ok(price) => if price.inner == 0 {
                    Some(zero)
                } else {
                    None
                },
            };
            let reference_failure = match reference {
                Err(error) => Some(error),
                Ok(price) => if price.inner == 0 {
                    Some(zero)
                } else {
                    None
                },
            };
            match (asset_failure, reference_failure) {
                (None, None) => {
                    let per_asset = asset->Ok_0.inner as int;
                    let worth = balance * reference->Ok_0.inner;
                    &&& worth <= u128::MAX * per_asset ==> {
                        &&& amount matches Ok(amount)
                        &&& (amount - 1) * per_asset < worth <= amount * per_asset
                    }
                    &&& worth > u128::MAX * per_asset ==> amount == Err::<u128, DispatchError>(
                        DispatchError::Arithmetic(ArithmeticError::Overflow),
                    )
                },
                (Some(error), None) => amount == Err::<u128, DispatchError>(error),
                (None, Some(error)) => amount == Err::<u128, DispatchError>(error),
                (Some(DispatchError::Unavailable), Some(error)) => amount == Err::<
                    u128,
                    DispatchError,
                >(error),
                (Some(error), Some(_)) => amount == Err::<u128, DispatchError>(error),
            }
        }),
{
    if let (Ok(asset_price), Ok(reference_price)) = (asset, reference) {
        if asset_price.inner > 0 && reference_price.inner > 0 {
            let per_asset = asset_price.inner as int;
            let worth = balance * reference_price.inner;
            law_rounding(worth, per_asset);
            law_conversion_rounds_as_asked::<u128>(
                balance,
                reference_price.inner,
                asset_price.inner,
                Rounding::Up,
            );
            let up = rounded(worth, per_asset, Rounding::Up);
            if worth <= u128::MAX * per_asset {
                assert(up <= u128::MAX) by (nonlinear_arith)
                    requires
                        (up - 1) * per_asset < worth,
                        worth <= u128::MAX * per_asset,
                        0 < per_asset,
                ;
            } else {
                assert(up > u128::MAX) by (nonlinear_arith)
                    requires
                        worth <= up * per_asset,
                        worth > u128::MAX * per_asset,
                        0 < per_asset,
                ;
            }
        }
    }
}

/// The shared ratio is the checked one without its reason for having none.
pub proof fn law_shared_ratio_is_the_checked_ratio(
    position: DebtCollateral<u128>,
    price: FixedU128,
    shared: Option<FixedU128>,
)
    requires
        call_ensures(crate::primitives::collateralization_ratio::<u128>, (&position, price), shared),
    ensures
        shared == (match collateralization_ratio_spec(position, price) {
            Ok(CollateralRatio::Ratio(ratio)) => Some(ratio),
            _ => None,
        }),
{
}

} // verus!
