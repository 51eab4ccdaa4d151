//! Settlement prices for `FinalRecovery` vaults.
//!
//! Price conversions return `None` if the price is zero or a calculation overflows.
//! [`insurance_adjusted`] returns `None` when the vault is outside its pricing regime. A caller
//! must treat `None` as an error.

use crate::arithmetic::{least, surplus, FixedU128, Permill, Rounding, DIV};
use crate::balance::Balance;
use crate::primitives::math::{lemma_rounded_is_natural, mul_div_spec};
use vstd::prelude::*;

pub use crate::primitives::math::{collateral_for_value_ceil, collateral_for_value_floor};

verus! {

/// `min(max(0, cr - 1 - buffer), penalty)`, on inner values.
pub open spec fn recovery_bonus_spec(cr: int, buffer: int, penalty: int) -> int {
    least(surplus(surplus(cr, DIV as int), buffer), penalty)
}

/// Calculates the bonus for a recovery vault with a ratio of at least one.
///
/// The bonus is the ratio's excess over `1 + buffer`, at most the redistribution penalty. It
/// never exceeds `cr - 1`, so that paying it does not decrease the vault's ratio.
pub fn recovery_bonus(cr: FixedU128, buffer: FixedU128, redistribution_penalty: Permill) -> (bonus:
    FixedU128)
    ensures
        bonus.inner == recovery_bonus_spec(
            cr.inner as int,
            buffer.inner as int,
            redistribution_penalty.fixed(),
        ),
        bonus.inner <= surplus(cr.inner as int, DIV as int),
{
    let excess = cr.saturating_sub(FixedU128::one()).saturating_sub(buffer);
    excess.min(redistribution_penalty.into_fixed())
}

/// `floor(floor(amount * factor) / price)`, with a fixed-point factor and price; `None` for a
/// zero price or where either floor does not fit.
pub open spec fn valued_collateral<B: Balance>(amount: int, factor: int, price: int) -> Option<B> {
    let value = factor * amount / DIV as int;
    if value > B::limit() {
        None
    } else {
        mul_div_spec::<B>(value, DIV as int, price, Rounding::Down)
    }
}

/// The collateral payout of a recovery settlement with a ratio of at least one; `None` where
/// `1 + bonus` or the payout does not fit, or for a zero price.
pub open spec fn bonus_payout<B: Balance>(debt_cancelled: int, bonus: int, price: int) -> Option<
    B,
> {
    if DIV + bonus > u128::MAX {
        None
    } else {
        valued_collateral::<B>(debt_cancelled, DIV + bonus, price)
    }
}

/// Values `amount` at `factor`, then converts the value to collateral, flooring both times.
fn collateral_at_factor<B: Balance>(amount: B, factor: FixedU128, price: FixedU128) -> (collateral:
    Option<B>)
    ensures
        collateral == valued_collateral::<B>(
            amount.amount() as int,
            factor.inner as int,
            price.inner as int,
        ),
{
    proof {
        assert(0 <= factor.inner * amount.amount()) by (nonlinear_arith);
        lemma_rounded_is_natural(factor.inner * amount.amount(), DIV as int, Rounding::Down);
    }
    match factor.checked_mul_int(amount) {
        Some(value) => {
            proof {
                B::of_holds((factor.inner * amount.amount() / DIV as int) as nat);
            }
            collateral_for_value_floor(value, price)
        },
        None => None,
    }
}

/// Calculates the collateral payout for a recovery settlement with a ratio of at least one.
///
/// The calculation applies `bonus` to `debt_cancelled` stablecoin at face value:
/// `floor(floor(debt_cancelled * (1 + bonus)) / price)`.
///
/// Returns `None` if the price is zero or if a calculation overflows.
pub fn recovery_bonus_collateral_out<B: Balance>(
    debt_cancelled: B,
    bonus: FixedU128,
    price: FixedU128,
) -> (collateral: Option<B>)
    ensures
        collateral == bonus_payout::<B>(
            debt_cancelled.amount() as int,
            bonus.inner as int,
            price.inner as int,
        ),
{
    match FixedU128::one().checked_add(bonus) {
        Some(factor) => collateral_at_factor(debt_cancelled, factor, price),
        None => None,
    }
}

/// An insurance-adjusted settlement split.
#[derive(Clone, Copy, PartialEq, Eq, Structural, Debug)]
pub struct InsuranceAdjusted<B> {
    /// Debt that redeemers and offset providers can cancel against the vault's collateral.
    pub market_cancel_debt: B,
    /// Debt that the Insurance Fund covers.
    pub effective_cover: B,
    /// Stablecoin value paid per unit of market-cancelled debt, at most one.
    pub recovery_rate: FixedU128,
}

/// Debt that the Insurance Fund covers: its available amount, at most the shortfall.
pub open spec fn cover_spec(debt: int, collateral_value: int, insurance_available: int) -> int {
    least(insurance_available, debt - collateral_value)
}

/// Stablecoin value per unit of market-cancelled debt, or zero where no such debt is left.
pub open spec fn recovery_rate_spec(collateral_value: int, market_cancel_debt: int) -> int {
    if market_cancel_debt == 0 {
        0
    } else {
        collateral_value * DIV / market_cancel_debt
    }
}

/// Calculates the insurance-adjusted settlement for a recovery vault with a ratio below one.
///
/// `collateral_value` is the held collateral's value in stablecoin units. The cover is the
/// available insurance, at most the shortfall; the market cancels the rest of the debt, at the
/// collateral value per unit of it.
///
/// Returns `None` if the collateral is worth more than the debt: such a vault is above par and
/// outside this function's regime.
pub fn insurance_adjusted<B: Balance>(debt: B, collateral_value: B, insurance_available: B) -> (split:
    Option<InsuranceAdjusted<B>>)
    ensures
        split is None <==> collateral_value.amount() > debt.amount(),
        split matches Some(split) ==> {
            let cover = cover_spec(
                debt.amount() as int,
                collateral_value.amount() as int,
                insurance_available.amount() as int,
            );
            &&& split.effective_cover.amount() == cover
            &&& split.market_cancel_debt.amount() == debt.amount() - cover
            &&& split.recovery_rate.inner == recovery_rate_spec(
                collateral_value.amount() as int,
                debt.amount() - cover,
            )
            &&& split.recovery_rate.inner <= DIV
        },
{
    let owed = debt.into_u128();
    let value = collateral_value.into_u128();
    if value > owed {
        return None;
    }
    let shortfall = owed - value;
    let available = insurance_available.into_u128();
    let cover = if available <= shortfall {
        available
    } else {
        shortfall
    };
    let market = owed - cover;
    proof {
        debt.holds_its_amount();
        B::of_holds(cover as nat);
        B::of_holds(market as nat);
    }
    let recovery_rate = if market == 0 {
        FixedU128::zero()
    } else {
        proof {
            assert(0 <= value * DIV / market as int <= DIV) by (nonlinear_arith)
                requires
                    0 <= value <= market,
                    0 < market,
                    DIV >= 0,
            ;
        }
        match FixedU128::checked_from_rational(value, market) {
            Some(rate) => rate,
            None => FixedU128::zero(),
        }
    };
    match (B::try_from_u128(market), B::try_from_u128(cover)) {
        (Some(market_cancel_debt), Some(effective_cover)) => {
            Some(InsuranceAdjusted { market_cancel_debt, effective_cover, recovery_rate })
        },
        _ => None,
    }
}

/// Calculates the collateral payout for a recovery settlement with a ratio below one:
/// `floor(floor(stablecoin_in * recovery_rate) / price)`.
///
/// Returns `None` if the price is zero or if a calculation overflows.
pub fn recovery_rate_collateral_out<B: Balance>(
    stablecoin_in: B,
    recovery_rate: FixedU128,
    price: FixedU128,
) -> (collateral: Option<B>)
    ensures
        collateral == valued_collateral::<B>(
            stablecoin_in.amount() as int,
            recovery_rate.inner as int,
            price.inner as int,
        ),
{
    collateral_at_factor(stablecoin_in, recovery_rate, price)
}

/// Paying a bonus that does not exceed the ratio's excess over one never lowers the vault's ratio:
/// the collateral paid out for `paid` of the debt is at most the same share of the collateral.
pub proof fn law_bonus_payout_never_lowers_the_ratio<B: Balance>(
    debt: int,
    collateral: int,
    price: int,
    ratio: int,
    bonus: int,
    paid: int,
)
    requires
        0 < debt,
        0 <= collateral,
        0 < price,
        ratio == (price * collateral / DIV as int) * DIV / debt,
        0 <= bonus <= surplus(ratio, DIV as int),
        DIV <= ratio,
        0 <= paid <= debt,
    ensures
        bonus_payout::<B>(paid, bonus, price) matches Some(payout) ==> payout.amount() * debt
            <= collateral * paid,
{
    if let Some(payout) = bonus_payout::<B>(paid, bonus, price) {
        let factor = DIV + bonus;
        let value = factor * paid / DIV as int;
        let held = price * collateral / DIV as int;
        let out = value * DIV / price;
        assert(factor * paid >= 0 && value * DIV >= 0 && price * collateral >= 0) by {
            assert(factor * paid >= 0) by (nonlinear_arith)
                requires
                    factor >= 0,
                    paid >= 0,
            ;
            lemma_rounded_is_natural(factor * paid, DIV as int, Rounding::Down);
            assert(price * collateral >= 0) by (nonlinear_arith)
                requires
                    price >= 0,
                    collateral >= 0,
            ;
        }
        lemma_rounded_is_natural(value * DIV, price, Rounding::Down);
        B::of_holds(out as nat);
        vstd::arithmetic::div_mod::lemma_fundamental_div_mod(value * DIV, price);
        vstd::arithmetic::div_mod::lemma_fundamental_div_mod(factor * paid, DIV as int);
        vstd::arithmetic::div_mod::lemma_fundamental_div_mod(price * collateral, DIV as int);
        vstd::arithmetic::div_mod::lemma_fundamental_div_mod(held * DIV, debt);
        // What leaves is worth at most the bonus-laden payment, and what is held at least the same
        // factor of the debt.
        assert(out * price <= factor * paid) by (nonlinear_arith)
            requires
                value * DIV == price * out + (value * DIV) % price,
                (value * DIV) % price >= 0,
                factor * paid == DIV * value + (factor * paid) % (DIV as int),
                (factor * paid) % (DIV as int) >= 0,
        ;
        assert(factor * debt <= price * collateral) by (nonlinear_arith)
            requires
                held * DIV == debt * ratio + (held * DIV) % debt,
                (held * DIV) % debt >= 0,
                price * collateral == DIV * held + (price * collateral) % (DIV as int),
                (price * collateral) % (DIV as int) >= 0,
                factor <= ratio,
                debt > 0,
        ;
        assert((out * debt) * price <= (collateral * paid) * price) by (nonlinear_arith)
            requires
                out * price <= factor * paid,
                factor * debt <= price * collateral,
                0 <= paid,
                0 < debt,
        ;
        assert(out * debt <= collateral * paid) by (nonlinear_arith)
            requires
                (out * debt) * price <= (collateral * paid) * price,
                0 < price,
        ;
    }
}

/// A split adds up to the debt, covers no more than the fund has or the shortfall needs, and values
/// the market's debt at no more than par.
pub proof fn law_split_adds_up(debt: int, collateral_value: int, insurance_available: int)
    requires
        0 <= collateral_value <= debt,
        0 <= insurance_available,
    ensures
        ({
            let cover = cover_spec(debt, collateral_value, insurance_available);
            let market = debt - cover;
            &&& 0 <= cover <= insurance_available
            &&& collateral_value <= market <= debt
            &&& market == collateral_value || cover == insurance_available
            &&& 0 <= recovery_rate_spec(collateral_value, market) <= DIV
        }),
{
    let cover = cover_spec(debt, collateral_value, insurance_available);
    let market = debt - cover;
    if market != 0 {
        assert(0 <= collateral_value * DIV / market <= DIV) by (nonlinear_arith)
            requires
                0 <= collateral_value <= market,
                0 < market,
                DIV > 0,
        ;
    }
}

} // verus!
