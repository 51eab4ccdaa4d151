//! What settlements do to the vaults they settle.

use crate::arithmetic::{ArithmeticError, FixedU128, DIV};
use crate::primitives::math::{collateralization_ratio_spec, CollateralRatio};
use crate::primitives::recovery_pricing::{bonus_payout, recovery_bonus_spec};
use crate::primitives::vault::DebtCollateral;
use crate::redemptions::recovery::{
    collateral_value, fund_cover, law_recovery_plan_is_bounded, lemma_below_par_value,
    lemma_pro_rata_is_a_part, pro_rata, recovery_plan, Payable, RecoveryPlan, Snapshot,
};
use crate::redemptions::redemption::{law_ordinary_step_is_bounded, priced_step, Step};
use crate::redemptions::types::RedemptionConfig;
use vstd::prelude::*;

verus! {

/// Ratio of a vault that has one.
pub open spec fn ratio_of(snapshot: Snapshot, price: FixedU128) -> int {
    let position = DebtCollateral { debt: snapshot.debt, collateral: snapshot.collateral };
    collateralization_ratio_spec(position, price)->Ok_0->Ratio_0.inner as int
}

/// A vault's collateral is worth at least its ratio's share of its debt.
proof fn lemma_ratio_bounds_the_value(snapshot: Snapshot, price: FixedU128, ratio: FixedU128)
    requires
        collateralization_ratio_spec(
            DebtCollateral { debt: snapshot.debt, collateral: snapshot.collateral },
            price,
        ) == Ok::<CollateralRatio, ArithmeticError>(CollateralRatio::Ratio(ratio)),
    ensures
        snapshot.debt > 0,
        ratio.inner == (price.inner * snapshot.collateral / DIV as int) * DIV
            / snapshot.debt as int,
        ratio.inner * snapshot.debt <= price.inner * snapshot.collateral,
{
    let held = price.inner * snapshot.collateral / DIV as int;
    let debt = snapshot.debt as int;
    vstd::arithmetic::div_mod::lemma_fundamental_div_mod(
        price.inner * snapshot.collateral,
        DIV as int,
    );
    vstd::arithmetic::div_mod::lemma_fundamental_div_mod(held * DIV, debt);
    assert(debt * ratio.inner == ratio.inner * debt) by (nonlinear_arith);
    assert(held * DIV == DIV * held) by (nonlinear_arith);
}

/// An ordinary step pays at most face value, and never lowers the ratio of the vault that it
/// redeems: the collateral that leaves is at most the cancelled debt's share of it.
pub proof fn law_ordinary_step_never_lowers_the_ratio(
    snapshot: Snapshot,
    price: FixedU128,
    budget: u128,
)
    ensures
        priced_step(snapshot, price, budget) matches Step::Redeem { debt, collateral } ==> {
            &&& collateral * price.inner <= debt * DIV
            &&& collateral * snapshot.debt <= debt * snapshot.collateral
        },
{
    if let Step::Redeem { debt, collateral } = priced_step(snapshot, price, budget) {
        law_ordinary_step_is_bounded(snapshot, price, budget);
        let position = DebtCollateral { debt: snapshot.debt, collateral: snapshot.collateral };
        let ratio = collateralization_ratio_spec(position, price)->Ok_0->Ratio_0;
        lemma_ratio_bounds_the_value(snapshot, price, ratio);
        let face = debt * DIV / price.inner as int;
        vstd::arithmetic::div_mod::lemma_fundamental_div_mod(debt * DIV, price.inner as int);
        assert(collateral * price.inner <= debt * DIV) by (nonlinear_arith)
            requires
                debt * DIV == price.inner * face + (debt * DIV) % (price.inner as int),
                (debt * DIV) % (price.inner as int) >= 0,
                collateral <= face,
                price.inner > 0,
        ;
        lemma_share_of_the_collateral(
            collateral as int,
            debt as int,
            DIV as int,
            snapshot.debt as int,
            snapshot.collateral as int,
            price.inner as int,
            ratio.inner as int,
        );
    }
}

/// Collateral that is worth at most `factor` times the debt paid, out of a vault whose collateral
/// is worth at least `ratio` times its debt, is at most the paid debt's share of it.
proof fn lemma_share_of_the_collateral(
    out: int,
    paid: int,
    factor: int,
    debt: int,
    collateral: int,
    price: int,
    ratio: int,
)
    requires
        out * price <= paid * factor,
        ratio * debt <= price * collateral,
        0 <= factor <= ratio,
        0 <= paid,
        0 <= debt,
        0 < price,
    ensures
        out * debt <= paid * collateral,
        factor < ratio && 0 < paid && 0 < debt ==> out * debt < paid * collateral,
{
    assert((out * debt) * price <= (paid * debt) * factor) by (nonlinear_arith)
        requires
            out * price <= paid * factor,
            0 <= debt,
    ;
    assert((paid * debt) * factor <= (paid * debt) * ratio) by (nonlinear_arith)
        requires
            0 <= paid,
            0 <= debt,
            factor <= ratio,
    ;
    assert((paid * debt) * ratio <= (paid * collateral) * price) by (nonlinear_arith)
        requires
            ratio * debt <= price * collateral,
            0 <= paid,
    ;
    if factor < ratio && 0 < paid && 0 < debt {
        assert((paid * debt) * factor < (paid * debt) * ratio) by (nonlinear_arith)
            requires
                0 < paid,
                0 < debt,
                factor < ratio,
        ;
        assert(out * debt < paid * collateral) by (nonlinear_arith)
            requires
                (out * debt) * price < (paid * collateral) * price,
                0 < price,
        ;
    }
    assert(out * debt <= paid * collateral) by (nonlinear_arith)
        requires
            (out * debt) * price <= (paid * collateral) * price,
            0 < price,
    ;
}

/// A bonus payout is worth at most the bonus-laden payment.
proof fn lemma_bonus_payout_value(paid: int, bonus: int, price: int)
    requires
        0 <= paid,
        0 <= bonus,
        0 < price,
    ensures
        bonus_payout::<u128>(paid, bonus, price) matches Some(payout) ==> payout * price <= paid * (
        DIV + bonus),
{
    if let Some(payout) = bonus_payout::<u128>(paid, bonus, price) {
        let factor = DIV + bonus;
        let value = factor * paid / DIV as int;
        let out = value * DIV / price;
        assert(0 <= factor * paid) by (nonlinear_arith)
            requires
                0 <= factor,
                0 <= paid,
        ;
        vstd::arithmetic::div_mod::lemma_fundamental_div_mod(factor * paid, DIV as int);
        vstd::arithmetic::div_mod::lemma_fundamental_div_mod(value * DIV, price);
        assert(out * price <= paid * factor) by (nonlinear_arith)
            requires
                value * DIV == price * out + (value * DIV) % price,
                (value * DIV) % price >= 0,
                factor * paid == DIV * value + (factor * paid) % (DIV as int),
                (factor * paid) % (DIV as int) >= 0,
        ;
    }
}

/// Settling a recovery head above par never lowers its ratio: the collateral that leaves is at
/// most the cancelled debt's share of it. With a buffer, and strictly above par, any settlement
/// raises the ratio.
pub proof fn law_recovery_above_par_never_lowers_the_ratio(
    snapshot: Snapshot,
    price: FixedU128,
    budget: u128,
    config: RedemptionConfig<u128>,
    fund: Payable,
)
    ensures
        recovery_plan(snapshot, price, budget, config, fund) matches Ok(
            RecoveryPlan::AbovePar { debt, collateral },
        ) ==> {
            &&& collateral * snapshot.debt <= debt * snapshot.collateral
            &&& debt > 0 && config.final_recovery_bonus_buffer.parts() > 0 && ratio_of(
                snapshot,
                price,
            ) > DIV ==> collateral * snapshot.debt < debt * snapshot.collateral
        },
{
    if let Ok(RecoveryPlan::AbovePar { debt, collateral }) = recovery_plan(
        snapshot,
        price,
        budget,
        config,
        fund,
    ) {
        law_recovery_plan_is_bounded(snapshot, price, budget, config, fund);
        let position = DebtCollateral { debt: snapshot.debt, collateral: snapshot.collateral };
        let ratio = collateralization_ratio_spec(position, price)->Ok_0->Ratio_0;
        lemma_ratio_bounds_the_value(snapshot, price, ratio);
        let bonus = if ratio.inner > snapshot.initial_collateralization_ratio.inner {
            0
        } else {
            recovery_bonus_spec(
                ratio.inner as int,
                config.final_recovery_bonus_buffer.fixed(),
                snapshot.redistribution_penalty.fixed(),
            )
        };
        snapshot.redistribution_penalty.lemma_parts_are_natural();
        config.final_recovery_bonus_buffer.lemma_parts_are_natural();
        lemma_bonus_payout_value(debt as int, bonus, price.inner as int);
        let payout = bonus_payout::<u128>(debt as int, bonus, price.inner as int)->0;
        assert(collateral * price.inner <= debt * (DIV + bonus)) by (nonlinear_arith)
            requires
                payout * price.inner <= debt * (DIV + bonus),
                collateral <= payout,
                0 < price.inner,
        ;
        lemma_share_of_the_collateral(
            collateral as int,
            debt as int,
            DIV + bonus,
            snapshot.debt as int,
            snapshot.collateral as int,
            price.inner as int,
            ratio.inner as int,
        );
    }
}

/// A recovery head below par never pays out more than is paid for it, and the Insurance Fund never
/// covers more than what the payoff exceeds the collateral's worth by.
pub proof fn law_recovery_below_par_pays_at_most_face_value(
    snapshot: Snapshot,
    price: FixedU128,
    budget: u128,
    config: RedemptionConfig<u128>,
    fund: Payable,
)
    ensures
        recovery_plan(snapshot, price, budget, config, fund) matches Ok(
            RecoveryPlan::BelowPar { debt, collateral, insurance_cover },
        ) ==> {
            &&& collateral * price.inner <= debt * DIV
            &&& insurance_cover * DIV <= snapshot.payoff() * DIV - snapshot.collateral * price.inner
        },
{
    if let Ok(RecoveryPlan::BelowPar { debt, collateral, insurance_cover }) = recovery_plan(
        snapshot,
        price,
        budget,
        config,
        fund,
    ) {
        let position = DebtCollateral { debt: snapshot.debt, collateral: snapshot.collateral };
        let ratio = collateralization_ratio_spec(position, price)->Ok_0->Ratio_0;
        let value = collateral_value(snapshot, price);
        lemma_below_par_value(snapshot, price, ratio);
        lemma_value_covers_the_collateral(snapshot, price);
        let whole = snapshot.collateral as int;
        let market = snapshot.payoff() - fund_cover(fund, snapshot.payoff() - value);
        if budget >= market {
            assert(value * DIV <= (snapshot.payoff() - insurance_cover) * DIV) by (nonlinear_arith)
                requires
                    value <= snapshot.payoff() - insurance_cover,
                    DIV > 0,
            ;
        } else {
            let share_of = if snapshot.terminal_interest_charge == 0 {
                market
            } else {
                snapshot.debt - fund_cover(fund, snapshot.debt - value)
            };
            lemma_pro_rata_is_a_part(debt as int, whole, share_of);
            lemma_pro_rata_value(debt as int, whole, share_of, value, price.inner as int);
            assert(value * DIV <= snapshot.payoff() * DIV) by (nonlinear_arith)
                requires
                    value <= snapshot.payoff(),
                    DIV > 0,
            ;
        }
    }
}

/// The collateral's value, rounded up, is at least what the collateral is worth.
proof fn lemma_value_covers_the_collateral(snapshot: Snapshot, price: FixedU128)
    ensures
        snapshot.collateral * price.inner <= collateral_value(snapshot, price) * DIV,
{
    let product = snapshot.collateral * price.inner;
    vstd::arithmetic::div_mod::lemma_fundamental_div_mod(product, DIV as int);
}

/// A share of the collateral is worth at most the debt that buys it, where the whole of it is worth
/// at most the market debt.
proof fn lemma_pro_rata_value(
    debt: int,
    collateral: int,
    market_debt: int,
    value: int,
    price: int,
)
    requires
        0 <= debt,
        0 <= collateral,
        0 < price,
        0 <= value <= market_debt,
        collateral * price <= value * DIV,
    ensures
        pro_rata(debt, collateral, market_debt) * price <= debt * DIV,
{
    let share = pro_rata(debt, collateral, market_debt);
    if market_debt == 0 {
        assert(0 <= debt * DIV) by (nonlinear_arith)
            requires
                0 <= debt,
                DIV > 0,
        ;
    } else {
        vstd::arithmetic::div_mod::lemma_fundamental_div_mod(debt * collateral, market_debt);
        assert(share * market_debt <= debt * collateral) by (nonlinear_arith)
            requires
                debt * collateral == market_debt * share + (debt * collateral) % market_debt,
                (debt * collateral) % market_debt >= 0,
        ;
        assert((share * price) * market_debt <= (debt * DIV) * market_debt) by (nonlinear_arith)
            requires
                share * market_debt <= debt * collateral,
                collateral * price <= value * DIV,
                0 <= value <= market_debt,
                0 <= debt,
                0 < price,
        ;
        assert(share * price <= debt * DIV) by (nonlinear_arith)
            requires
                (share * price) * market_debt <= (debt * DIV) * market_debt,
                0 < market_debt,
        ;
    }
}

} // verus!
