//! What the settlement of a recovery head pays and receives, stated on amounts.

use crate::arithmetic::{least, FixedU128, DIV};
use crate::primitives::debit::Preservation;
use crate::primitives::vault::VaultStatus;
use crate::redemptions::error::Error;
use crate::redemptions::payout_laws::{
    has_ratio, law_ratio_is_the_value_per_debt, law_sized_payment_is_what_the_vault_takes,
    lemma_floor, takes, worth,
};
use crate::redemptions::recovery::{
    collateral_value, fund_cover, fundable, funded_plan, law_recovery_plan_is_bounded, pro_rata,
    recovery_order, recovery_plan, Payable, RecoveryOrder, RecoveryPlan, Snapshot,
};
use crate::redemptions::tranche_laws::lemma_rounded_up;
use crate::redemptions::types::{RedemptionConfig, RedemptionTerms};
use vstd::prelude::*;

verus! {

/// Inner value of one millionth.
pub const PART: u128 = 1_000_000_000_000;

/// Whether a recovery head's ratio is above its initial one.
pub open spec fn recovered(snapshot: Snapshot, price: FixedU128) -> bool {
    worth(snapshot, price) * DIV >= (snapshot.initial_collateralization_ratio.inner + 1)
        * snapshot.debt
}

/// Whether `cover` is what a fund pays of `shortfall`: all of it where that keeps the fund's minimum
/// balance, else the whole fund where that is not more, else what keeps the minimum balance.
pub open spec fn covers(fund: Payable, shortfall: int, cover: int) -> bool {
    &&& shortfall <= fund.preserved ==> cover == shortfall
    &&& fund.preserved < shortfall && fund.expendable <= shortfall ==> cover == fund.expendable
    &&& fund.preserved < shortfall < fund.expendable ==> cover == fund.preserved
}

/// Whether `bonus` is what a head pays above face value: nothing above the initial ratio, else the
/// ratio's excess over one and the buffer, as far as it is within the redistribution penalty.
pub open spec fn pays_bonus(
    snapshot: Snapshot,
    price: FixedU128,
    config: RedemptionConfig<u128>,
    bonus: int,
) -> bool {
    let ratio = worth(snapshot, price) * DIV / snapshot.debt as int;
    let free = DIV + config.final_recovery_bonus_buffer.parts() * PART;
    let penalty = snapshot.redistribution_penalty.parts() * PART;
    &&& 0 <= bonus <= penalty
    &&& recovered(snapshot, price) ==> bonus == 0
    &&& !recovered(snapshot, price) ==> {
        &&& ratio <= free ==> bonus == 0
        &&& ratio > free ==> free + bonus <= ratio && (bonus == penalty || free + bonus == ratio)
    }
}

/// A head is above its initial ratio exactly where its ratio, rounded down, is greater.
proof fn lemma_recovered(snapshot: Snapshot, price: FixedU128)
    requires
        has_ratio(snapshot, price),
    ensures
        recovered(snapshot, price) <==> worth(snapshot, price) * DIV / snapshot.debt as int
            > snapshot.initial_collateralization_ratio.inner,
{
    lemma_floor(
        worth(snapshot, price) * DIV,
        snapshot.debt as int,
        snapshot.initial_collateralization_ratio.inner + 1,
    );
}

/// A vault out of recovery, without debt or without a ratio is no recovery head to settle, and
/// neither is any at a price of zero.
pub proof fn law_only_a_priced_recovery_head_is_settled(
    snapshot: Snapshot,
    price: FixedU128,
    budget: u128,
    config: RedemptionConfig<u128>,
    fund: Payable,
)
    ensures
        snapshot.status != VaultStatus::FinalRecovery || price.inner == 0 || !has_ratio(
            snapshot,
            price,
        ) ==> recovery_plan(snapshot, price, budget, config, fund) == Err::<RecoveryPlan, Error>(
            Error::NoRedeemableVault,
        ),
{
    law_ratio_is_the_value_per_debt(snapshot, price);
}

/// A head above its initial ratio must exit recovery before it is settled, exactly where its debt
/// lets it: with less than the minimum debt it may be unable to.
pub proof fn law_recovered_head_must_exit(
    snapshot: Snapshot,
    price: FixedU128,
    budget: u128,
    config: RedemptionConfig<u128>,
    fund: Payable,
)
    requires
        snapshot.status == VaultStatus::FinalRecovery,
        0 < price.inner,
        has_ratio(snapshot, price),
    ensures
        recovery_plan(snapshot, price, budget, config, fund) == Err::<RecoveryPlan, Error>(
            Error::FinalRecoveryExitRequired,
        ) <==> recovered(snapshot, price) && snapshot.minimum_debt <= snapshot.debt,
{
    law_ratio_is_the_value_per_debt(snapshot, price);
    lemma_recovered(snapshot, price);
}

/// A head above par settles all that it takes of the budget, for its face value and the bonus, or for
/// all of its collateral. What `value` of stablecoin the payment and the bonus come to, and what `out`
/// of collateral that buys, are rounded down. The Insurance Fund pays nothing.
pub proof fn law_recovery_above_par_pays_face_value_and_bonus(
    snapshot: Snapshot,
    price: FixedU128,
    budget: u128,
    config: RedemptionConfig<u128>,
    fund: Payable,
    payment: int,
    bonus: int,
    value: int,
    out: int,
)
    requires
        snapshot.status == VaultStatus::FinalRecovery,
        0 < price.inner,
        has_ratio(snapshot, price),
        snapshot.debt * DIV <= snapshot.collateral * price.inner,
        !recovered(snapshot, price) || snapshot.debt < snapshot.minimum_debt,
        snapshot.redistribution_penalty.parts() <= 1_000_000,
        takes(snapshot, budget as int, payment),
        pays_bonus(snapshot, price, config, bonus),
        value * DIV <= payment * (DIV + bonus) < (value + 1) * DIV,
        out * price.inner <= value * DIV < (out + 1) * price.inner,
    ensures
        value <= u128::MAX && out <= u128::MAX ==> {
            &&& recovery_plan(snapshot, price, budget, config, fund) matches Ok(
                RecoveryPlan::AbovePar { debt, collateral },
            )
            &&& debt == payment
            &&& out <= snapshot.collateral ==> collateral == out
            &&& out > snapshot.collateral ==> collateral == snapshot.collateral
        },
        value > u128::MAX || out > u128::MAX ==> recovery_plan(
            snapshot,
            price,
            budget,
            config,
            fund,
        ) == Err::<RecoveryPlan, Error>(Error::NoRedeemableVault),
{
    law_ratio_is_the_value_per_debt(snapshot, price);
    law_sized_payment_is_what_the_vault_takes(snapshot, budget, payment);
    lemma_recovered(snapshot, price);
    snapshot.redistribution_penalty.lemma_parts_are_natural();
    config.final_recovery_bonus_buffer.lemma_parts_are_natural();
    assert((DIV + bonus) * payment == payment * (DIV + bonus)) by (nonlinear_arith);
    let full = payment * (DIV + bonus);
    lemma_floor(full, DIV as int, value);
    lemma_floor(full, DIV as int, value + 1);
    lemma_floor(value * DIV, price.inner as int, out);
    lemma_floor(value * DIV, price.inner as int, out + 1);
    assert(0 <= full) by (nonlinear_arith)
        requires
            0 <= payment,
            0 <= bonus,
            DIV >= 0,
            full == payment * (DIV + bonus),
    ;
    lemma_floor(full, DIV as int, 0);
    lemma_floor(value * DIV, price.inner as int, 0);
    assert(bonus <= u128::MAX - DIV);
}

/// A head below par is settled in full, for all of its collateral, where the budget covers what the
/// Insurance Fund leaves of all that it owes. Any smaller budget draws nothing from the fund and
/// buys its share of the collateral, to within a unit: its share of what the fund would leave of
/// all that the head owes, or of the base debt where a terminal charge applies, a unit of which
/// then stays.
#[verifier::spinoff_prover]
pub proof fn law_recovery_below_par_shares_the_collateral(
    snapshot: Snapshot,
    price: FixedU128,
    budget: u128,
    config: RedemptionConfig<u128>,
    fund: Payable,
    owed: int,
    value: int,
    cover: int,
    base_cover: int,
)
    requires
        snapshot.status == VaultStatus::FinalRecovery,
        0 < price.inner,
        has_ratio(snapshot, price),
        snapshot.collateral * price.inner < snapshot.debt * DIV,
        !recovered(snapshot, price) || snapshot.debt < snapshot.minimum_debt,
        (value - 1) * DIV < snapshot.collateral * price.inner <= value * DIV,
        owed <= u128::MAX,
        owed <= snapshot.debt + snapshot.terminal_interest_charge,
        owed == u128::MAX || owed == snapshot.debt + snapshot.terminal_interest_charge,
        covers(fund, owed - value, cover),
        covers(fund, snapshot.debt - value, base_cover),
    ensures
        recovery_plan(snapshot, price, budget, config, fund) matches Ok(
            RecoveryPlan::BelowPar { debt, collateral, insurance_cover },
        ) && {
            let market = owed - cover;
            let base_market = snapshot.debt - base_cover;
            &&& market <= budget ==> debt == market && collateral == snapshot.collateral
                && insurance_cover == cover
            &&& budget < market ==> insurance_cover == 0
            &&& budget < market && snapshot.terminal_interest_charge == 0 ==> {
                &&& debt == budget
                &&& collateral * market <= debt * snapshot.collateral < (collateral + 1) * market
            }
            &&& budget < market && snapshot.terminal_interest_charge > 0 && 0 < base_market ==> {
                &&& debt <= budget && debt < base_market
                &&& debt == budget || debt == base_market - 1
                &&& collateral * base_market <= debt * snapshot.collateral < (collateral + 1)
                    * base_market
            }
            &&& budget < market && snapshot.terminal_interest_charge > 0 && base_market == 0 ==> {
                &&& debt == 0
                &&& collateral == 0
            }
        },
{
    law_ratio_is_the_value_per_debt(snapshot, price);
    lemma_recovered(snapshot, price);
    let product = snapshot.collateral * price.inner;
    lemma_rounded_up(product, DIV as int);
    let up = collateral_value(snapshot, price);
    assert(up == value) by (nonlinear_arith)
        requires
            product <= DIV * up < product + DIV,
            (value - 1) * DIV < product <= value * DIV,
            DIV == 1_000_000_000_000_000_000,
    ;
    assert(0 <= product) by (nonlinear_arith)
        requires
            product == snapshot.collateral * price.inner,
    ;
    assert(0 <= value <= snapshot.debt) by (nonlinear_arith)
        requires
            0 <= product <= value * DIV,
            (value - 1) * DIV < product,
            product < snapshot.debt * DIV,
            DIV == 1_000_000_000_000_000_000,
    ;
    assert(snapshot.payoff() == owed);
    assert(fund_cover(fund, owed - value) == cover);
    assert(fund_cover(fund, snapshot.debt - value) == base_cover);
    let market = owed - cover;
    let base_market = snapshot.debt - base_cover;
    if budget < market {
        let share_of = if snapshot.terminal_interest_charge == 0 {
            market
        } else {
            base_market
        };
        let debt = if snapshot.terminal_interest_charge == 0 {
            budget as int
        } else {
            least(snapshot.partial(base_market), budget as int)
        };
        crate::redemptions::recovery::lemma_pro_rata_is_a_part(
            debt,
            snapshot.collateral as int,
            share_of,
        );
        if share_of != 0 {
            lemma_floor(debt * snapshot.collateral, share_of, 0);
        }
        assert(0 <= pro_rata(debt, snapshot.collateral as int, share_of) <= snapshot.collateral);
    }
}

/// A redeemer who would spend nothing is owed no floor: their order goes through exactly where the
/// Insurance Fund alone settles the head.
pub proof fn law_recovery_order_without_a_spend<AccountId>(
    owner: AccountId,
    snapshot: Snapshot,
    price: FixedU128,
    config: RedemptionConfig<u128>,
    terms: RedemptionTerms<u128>,
    redeemer: Payable,
    fund: Payable,
)
    requires
        terms.max_stable_to_spend == 0,
    ensures
        ({
            let order = recovery_order(owner, snapshot, price, config, terms, redeemer, fund);
            match recovery_plan(snapshot, price, 0, config, fund) {
                Err(error) => order == Err::<RecoveryOrder<AccountId>, Error>(error),
                Ok(plan) => {
                    &&& plan.paid() == 0
                    &&& plan.covered() > 0 ==> order == Ok::<RecoveryOrder<AccountId>, Error>(
                        RecoveryOrder { owner, plan, debit: None },
                    )
                    &&& plan.covered() == 0 ==> order == Err::<RecoveryOrder<AccountId>, Error>(
                        Error::NoRedeemableVault,
                    )
                },
            }
        }),
{
    law_recovery_plan_is_bounded(snapshot, price, 0, config, fund);
}

/// What a plan says of itself: the redeemer's payment, the payout, and the fund's payment.
pub proof fn law_plan_figures(debt: u128, collateral: u128, insurance_cover: u128)
    ensures
        ({
            let above = RecoveryPlan::AbovePar { debt, collateral };
            let below = RecoveryPlan::BelowPar { debt, collateral, insurance_cover };
            &&& above.paid() == debt && below.paid() == debt
            &&& above.received() == collateral && below.received() == collateral
            &&& above.covered() == 0 && below.covered() == insurance_cover
            &&& above.progresses() == (debt > 0)
            &&& below.progresses() == (debt > 0 || insurance_cover > 0)
        }),
{
}

/// A redeemer funds the plan for all that they may and can spend, where one debit can take what it
/// costs and either keeps their minimum balance or takes all they have. Where it can do neither,
/// they fund the plan for what keeps the minimum balance, if that is anything.
pub proof fn law_redeemer_funds_what_one_debit_takes(
    snapshot: Snapshot,
    price: FixedU128,
    config: RedemptionConfig<u128>,
    max_stable_to_spend: u128,
    redeemer: Payable,
    fund: Payable,
    budget: u128,
)
    requires
        budget <= max_stable_to_spend,
        budget <= redeemer.expendable,
        budget == max_stable_to_spend || budget == redeemer.expendable,
    ensures
        ({
            let planned = recovery_plan(snapshot, price, budget, config, fund);
            let funded = funded_plan(
                snapshot,
                price,
                config,
                max_stable_to_spend,
                redeemer,
                fund,
            );
            let kept = recovery_plan(snapshot, price, redeemer.preserved, config, fund);
            &&& planned matches Err(error) ==> funded == Err::<
                (RecoveryPlan, Option<Preservation>),
                Error,
            >(error)
            &&& planned matches Ok(plan) ==> {
                let cost = plan.paid();
                &&& cost == 0 ==> funded == Ok::<_, Error>((plan, None::<Preservation>))
                &&& 0 < cost <= redeemer.preserved ==> funded == Ok::<_, Error>(
                    (plan, Some(Preservation::Preserve)),
                )
                &&& redeemer.preserved < cost == redeemer.expendable ==> funded == Ok::<_, Error>(
                    (plan, Some(Preservation::Expendable)),
                )
                &&& redeemer.preserved < cost < redeemer.expendable ==> {
                    &&& redeemer.preserved == 0 ==> funded == Err::<
                        (RecoveryPlan, Option<Preservation>),
                        Error,
                    >(Error::InsufficientStableBalance)
                    &&& redeemer.preserved > 0 ==> funded == (match kept {
                        Ok(plan) => Ok((plan, Some(Preservation::Preserve))),
                        Err(error) => Err(error),
                    })
                }
            }
        }),
{
    law_recovery_plan_is_bounded(snapshot, price, budget, config, fund);
}

/// An accepted recovery order pays out at least the redeemer's floor for what the redeemer pays of
/// the most that they would spend, to within a unit, and so the whole floor for the whole spend. A
/// funded plan that cancels something is refused for slippage exactly where it falls short of that.
pub proof fn law_recovery_order_keeps_the_redeemers_floor<AccountId>(
    owner: AccountId,
    snapshot: Snapshot,
    price: FixedU128,
    config: RedemptionConfig<u128>,
    terms: RedemptionTerms<u128>,
    redeemer: Payable,
    fund: Payable,
)
    requires
        0 < terms.max_stable_to_spend,
    ensures
        ({
            let order = recovery_order(owner, snapshot, price, config, terms, redeemer, fund);
            let max = terms.max_stable_to_spend;
            let floor = terms.min_collateral_out;
            &&& order matches Ok(order) ==> {
                &&& order.owner == owner
                &&& order.plan.paid() <= max
                &&& order.plan.paid() > 0 || order.plan.covered() > 0
                &&& order.plan.received() * max > floor * order.plan.paid() - max
                &&& order.plan.paid() == max ==> order.plan.received() >= floor
            }
            &&& match funded_plan(snapshot, price, config, max, redeemer, fund) {
                Err(error) => order == Err::<RecoveryOrder<AccountId>, Error>(error),
                Ok((plan, debit)) => {
                    &&& plan.paid() == 0 && plan.covered() == 0 ==> order == Err::<
                        RecoveryOrder<AccountId>,
                        Error,
                    >(Error::NoRedeemableVault)
                    &&& plan.paid() > 0 || plan.covered() > 0 ==> {
                        &&& floor * plan.paid() >= (plan.received() + 1) * max ==> order == Err::<
                            RecoveryOrder<AccountId>,
                            Error,
                        >(Error::SlippageExceeded)
                        &&& floor * plan.paid() < (plan.received() + 1) * max ==> order == Ok::<
                            RecoveryOrder<AccountId>,
                            Error,
                        >(RecoveryOrder { owner, plan, debit })
                    }
                },
            }
        }),
{
    let max = terms.max_stable_to_spend;
    let floor = terms.min_collateral_out as int;
    let budget = least(max as int, redeemer.expendable as int) as u128;
    law_recovery_plan_is_bounded(snapshot, price, budget, config, fund);
    law_recovery_plan_is_bounded(snapshot, price, redeemer.preserved, config, fund);
    if let Ok((plan, debit)) = funded_plan(snapshot, price, config, max, redeemer, fund) {
        let paid = plan.paid() as int;
        let received = plan.received() as int;
        assert(paid <= max);
        lemma_floor(floor * paid, max as int, received + 1);
        lemma_floor(floor * paid, max as int, floor + 1);
        assert(floor * paid < (floor + 1) * max) by (nonlinear_arith)
            requires
                0 <= floor,
                0 <= paid <= max,
                0 < max,
        ;
        assert((received + 1) * max == received * max + max) by (nonlinear_arith);
        if paid == max {
            lemma_floor(floor * max, max as int, floor);
        }
    }
}

/// A need is funded whole where that keeps the payer's minimum balance or takes all that they can
/// pay; where it would leave less than the minimum balance, what keeps it is funded, if that is
/// anything; any other need is more than the payer has.
pub proof fn law_need_is_funded_by_one_debit(payer: Payable, need: u128)
    ensures
        need <= payer.preserved ==> fundable(payer, need) == Ok::<(u128, Preservation), Error>(
            (need, Preservation::Preserve),
        ),
        payer.preserved < need == payer.expendable ==> fundable(payer, need) == Ok::<
            (u128, Preservation),
            Error,
        >((need, Preservation::Expendable)),
        0 < payer.preserved < need < payer.expendable ==> fundable(payer, need) == Ok::<
            (u128, Preservation),
            Error,
        >((payer.preserved, Preservation::Preserve)),
        0 == payer.preserved < need < payer.expendable || payer.preserved < need && payer.expendable
            < need ==> fundable(payer, need) == Err::<(u128, Preservation), Error>(
            Error::InsufficientStableBalance,
        ),
{
}

/// The Insurance Fund is debited only where the plan draws cover, and then may be consumed exactly
/// where the cover is all that it can pay or more.
pub proof fn law_cover_may_drain_the_fund<AccountId>(order: RecoveryOrder<AccountId>, fund: Payable)
    ensures
        order.plan.covered() == 0 ==> order.cover_from(fund) is None,
        0 < order.plan.covered() < fund.expendable ==> order.cover_from(fund) == Some(
            Preservation::Preserve,
        ),
        0 < order.plan.covered() && fund.expendable <= order.plan.covered() ==> order.cover_from(fund)
            == Some(Preservation::Expendable),
{
}

} // verus!
