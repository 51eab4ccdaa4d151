//! What redemptions come to, stated on what goes in and what comes out.

use crate::arithmetic::{least, FixedU128, DIV};
use crate::primitives::credit::{StableCredit, StableId};
use crate::primitives::error::DispatchError;
use crate::primitives::recovery_offset::RecoveryOffsetResult;
use crate::primitives::vault::VaultStatus;
use crate::primitives::vault_interface::{RedemptionSettlement, VaultInterface};
use crate::redemptions::error::{Error, Failure};
use crate::redemptions::fee_laws::{
    law_bought_debt_fits_and_one_more_does_not, law_redeeming_nothing_costs_and_moves_nothing,
};
use crate::redemptions::fees::{bought, DynamicFeeCurve};
use crate::redemptions::offset::{offset_of, reads_one_head, OffsetDecision};
use crate::redemptions::pallet::{
    projections_of, projects, receipt_of, recovery_payment, redemption_inputs_spec, Event,
    OrdinaryOrder, OrdinaryReceipt, Pallet, Readings, RedeemOrder,
};
use crate::redemptions::payout_laws::law_ratio_is_the_value_per_debt;
use crate::redemptions::rate_laws::{
    law_raised_fee_is_the_arrival_fee_and_the_share, law_redemption_pays_its_rate,
    law_scaled_floor_is_a_share_of_the_floor,
};
use crate::redemptions::recovery::{
    law_recovery_plan_is_bounded, recovery_order, recovery_plan, Payable, RecoveryOrder,
    RecoveryPlan, Snapshot,
};
use crate::redemptions::redemption::{
    fee_of, ordinary_quote, walked, OrdinaryResult, Projection, WalkContext,
};
use crate::redemptions::types::{
    Millis, RedemptionConfig, RedemptionQuote, RedemptionState, RedemptionTerms,
};
use vstd::prelude::*;

verus! {

/// An ordinary redemption that spent no more than its terms allow is completed exactly where it pays
/// out at least their floor for what it spent, to within a unit, and so the whole floor for the
/// whole spend. Else it fails for slippage and leaves everything as it was.
pub proof fn law_ordinary_redemption_keeps_the_redeemers_floor<
    CollateralId: Copy,
    AccountId: Copy,
>(
    before: Pallet<CollateralId, AccountId>,
    context: WalkContext<CollateralId, AccountId>,
    order: OrdinaryOrder<AccountId>,
    receipt: OrdinaryReceipt,
    steps: Result<u32, Failure>,
    after: Pallet<CollateralId, AccountId>,
)
    requires
        Pallet::finalizes(before, context, order, receipt, steps, after),
        0 < order.terms.max_stable_to_spend,
        receipt.result.debt + receipt.fee <= order.terms.max_stable_to_spend,
    ensures
        ({
            let floor = order.terms.min_collateral_out;
            let max = order.terms.max_stable_to_spend;
            let spent = receipt.result.debt + receipt.fee;
            let out = receipt.result.collateral;
            &&& floor * spent < (out + 1) * max ==> steps == Ok::<u32, Failure>(
                receipt.result.steps,
            )
            &&& floor * spent >= (out + 1) * max ==> {
                &&& steps == Err::<u32, Failure>(Failure::Pallet(Error::SlippageExceeded))
                &&& after.configs@ == before.configs@
                &&& after.states@ == before.states@
                &&& after.events@ == before.events@
            }
            &&& steps is Ok && spent == max ==> out >= floor
        }),
{
    let floor = order.terms.min_collateral_out as int;
    let max = order.terms.max_stable_to_spend as int;
    let spent = receipt.result.debt + receipt.fee;
    let out = receipt.result.collateral as int;
    law_scaled_floor_is_a_share_of_the_floor(floor, spent, max, u128::MAX as int);
    let scaled = crate::redemptions::fees::scaled_floor(floor, spent, max, u128::MAX as int);
    if out < scaled {
        assert((out + 1) * max <= scaled * max) by (nonlinear_arith)
            requires
                out + 1 <= scaled,
                0 < max,
        ;
    } else {
        assert((scaled + 1) * max <= (out + 1) * max) by (nonlinear_arith)
            requires
                scaled <= out,
                0 < max,
        ;
    }
    if spent == max {
        assert(floor <= scaled) by (nonlinear_arith)
            requires
                floor * max < (scaled + 1) * max,
                0 < max,
        ;
    }
}

/// A completed ordinary redemption stores as the dynamic fee the arrival fee plus the share of the
/// stablecoin's debt that it cancelled in all, over the divisor, up to rounding, and at most the
/// ceiling, at the time of the redemption. Every other row stays.
pub proof fn law_completed_redemption_raises_the_fee_by_the_share<
    CollateralId: Copy,
    AccountId: Copy,
>(
    before: Pallet<CollateralId, AccountId>,
    context: WalkContext<CollateralId, AccountId>,
    order: OrdinaryOrder<AccountId>,
    receipt: OrdinaryReceipt,
    steps: u32,
    after: Pallet<CollateralId, AccountId>,
    other: StableId,
)
    requires
        Pallet::finalizes(before, context, order, receipt, Ok(steps), after),
        order.fee_inputs.curve.divisor.inner > 0,
        order.fee_inputs.curve.decayed.inner
            <= order.fee_inputs.curve.dynamic_fee_ceiling.inner,
        receipt.result.debt <= order.fee_inputs.curve.debt,
        0 < order.fee_inputs.curve.debt,
    ensures
        ({
            let curve = order.fee_inputs.curve;
            let stored = after.states@[context.stable_id];
            let rise = stored.dynamic_fee.inner - curve.decayed.inner;
            let redeemed = receipt.result.debt * (DIV * DIV);
            &&& after.states@.contains_key(context.stable_id)
            &&& stored.last_fee_operation == order.fee_inputs.now
            &&& 0 <= rise
            &&& stored.dynamic_fee.inner <= curve.dynamic_fee_ceiling.inner
            &&& rise * (curve.debt * curve.divisor.inner) <= redeemed
            &&& stored.dynamic_fee.inner < curve.dynamic_fee_ceiling.inner ==> redeemed < curve.debt
                * ((rise + 1) * curve.divisor.inner + DIV)
            &&& other != context.stable_id ==> {
                &&& after.states@.contains_key(other) == before.states@.contains_key(other)
                &&& after.states@[other] == before.states@[other]
            }
            &&& after.configs@ == before.configs@
        }),
{
    let curve = order.fee_inputs.curve;
    let redeemed = receipt.result.debt as int;
    law_raised_fee_is_the_arrival_fee_and_the_share(curve, redeemed, redeemed);
}

/// A completed ordinary redemption stores the dynamic fee that its curve reaches with the debt that it
/// cancelled, at the time of the redemption, whatever the curve.
pub proof fn law_completed_redemption_stores_the_raised_fee<
    CollateralId: Copy,
    AccountId: Copy,
>(
    before: Pallet<CollateralId, AccountId>,
    context: WalkContext<CollateralId, AccountId>,
    order: OrdinaryOrder<AccountId>,
    receipt: OrdinaryReceipt,
    steps: u32,
    after: Pallet<CollateralId, AccountId>,
)
    requires
        Pallet::finalizes(before, context, order, receipt, Ok(steps), after),
    ensures
        after.states@.contains_key(context.stable_id),
        after.states@[context.stable_id].dynamic_fee.inner == order.fee_inputs.curve.raised(
            receipt.result.debt as int,
        ),
        after.states@[context.stable_id].last_fee_operation == order.fee_inputs.now,
{
    let curve = order.fee_inputs.curve;
    if curve.divisor.inner != 0 {
        crate::redemptions::fee_laws::lemma_climb_is_ordered(
            curve,
            0,
            receipt.result.debt as int,
        );
    }
}

/// The dynamic fee that a completed redemption stores depends on the debt that it cancelled alone:
/// two receipts for the same debt store the same, whatever their steps, their collateral and their
/// fee, and more debt never stores a lower fee.
pub proof fn law_stored_fee_depends_on_the_cancelled_debt_alone<
    CollateralId: Copy,
    AccountId: Copy,
>(
    before: Pallet<CollateralId, AccountId>,
    context: WalkContext<CollateralId, AccountId>,
    order: OrdinaryOrder<AccountId>,
    receipt: OrdinaryReceipt,
    steps: u32,
    after: Pallet<CollateralId, AccountId>,
    other_before: Pallet<CollateralId, AccountId>,
    other_receipt: OrdinaryReceipt,
    other_steps: u32,
    other_after: Pallet<CollateralId, AccountId>,
)
    requires
        Pallet::finalizes(before, context, order, receipt, Ok(steps), after),
        Pallet::finalizes(other_before, context, order, other_receipt, Ok(other_steps), other_after),
    ensures
        receipt.result.debt == other_receipt.result.debt ==> after.states@[context.stable_id]
            == other_after.states@[context.stable_id],
        receipt.result.debt <= other_receipt.result.debt ==> after.states@[context.stable_id].dynamic_fee.inner
            <= other_after.states@[context.stable_id].dynamic_fee.inner,
{
    let curve = order.fee_inputs.curve;
    let less = receipt.result.debt as int;
    let more = other_receipt.result.debt as int;
    if less <= more {
        if curve.divisor.inner != 0 {
            crate::redemptions::fee_laws::lemma_climb_is_ordered(curve, 0, less);
            crate::redemptions::fee_laws::lemma_climb_is_ordered(curve, less, more);
        }
        crate::redemptions::fee_laws::law_raised_fee_is_monotonic(curve, less, more);
    }
}

/// A completed ordinary redemption reports what it did last, and before that the move of the dynamic
/// fee from what was stored to what is stored now, exactly where these differ. What was reported
/// before stays.
pub proof fn law_completed_redemption_reports_what_it_did<
    CollateralId: Copy,
    AccountId: Copy,
>(
    before: Pallet<CollateralId, AccountId>,
    context: WalkContext<CollateralId, AccountId>,
    order: OrdinaryOrder<AccountId>,
    receipt: OrdinaryReceipt,
    steps: u32,
    after: Pallet<CollateralId, AccountId>,
)
    requires
        Pallet::finalizes(before, context, order, receipt, Ok(steps), after),
    ensures
        ({
            let was = order.fee_inputs.state.dynamic_fee;
            let is = after.states@[context.stable_id].dynamic_fee;
            let count = before.events@.len() as int;
            &&& steps == receipt.result.steps
            &&& after.events@.take(count) == before.events@
            &&& after.events@.len() == count + (if was == is {
                1int
            } else {
                2int
            })
            &&& after.events@.last() == Event::<
                CollateralId,
                AccountId,
            >::OrdinaryRedemptionExecuted {
                collateral_id: context.collateral_id,
                stable_id: context.stable_id,
                redeemer: context.redeemer,
                recipient: context.recipient,
                stable_burned: receipt.result.debt,
                collateral_out: receipt.result.collateral,
                fee: receipt.fee,
                steps: receipt.result.steps,
            }
            &&& was != is ==> after.events@[count] == Event::<
                CollateralId,
                AccountId,
            >::RedemptionDynamicFeeUpdated {
                stable_id: context.stable_id,
                old_dynamic_fee: was,
                new_dynamic_fee: is,
            }
        }),
{
}

/// A redemption needs a registered stablecoin, a budget of at least its minimum and a price above
/// zero; of several that are missing, the first in this order is the reason.
pub proof fn law_redemption_needs_a_policy_a_budget_and_a_price(
    config: Option<RedemptionConfig<u128>>,
    max_stable_to_spend: u128,
    price: Result<FixedU128, DispatchError>,
)
    ensures
        ({
            let inputs = redemption_inputs_spec(config, max_stable_to_spend, price);
            &&& inputs matches Ok((policy, at)) ==> {
                &&& config == Some(policy)
                &&& price == Ok::<FixedU128, DispatchError>(at)
                &&& policy.minimum_redemption_amount <= max_stable_to_spend
                &&& 0 < at.inner
            }
            &&& inputs matches Err(error) ==> {
                ||| config is None && error == Error::StablecoinNotRegistered
                ||| {
                    &&& config matches Some(policy)
                    &&& max_stable_to_spend < policy.minimum_redemption_amount
                    &&& error == Error::BelowMinimumRedemptionAmount
                }
                ||| {
                    &&& config matches Some(policy)
                    &&& policy.minimum_redemption_amount <= max_stable_to_spend
                    &&& price is Err || price->Ok_0.inner == 0
                    &&& error == Error::OracleUnavailable
                }
            }
        }),
{
}

/// An ordinary redemption is ordered for the most debt, of at least the minimum, that fits with its
/// fee in what the redeemer may spend and can pay while keeping their minimum balance. Where that is
/// below the minimum, the terms are to blame if the redeemer can pay them, else the balance.
///
/// The fee is that of the stablecoin's debt and its effective dynamic fee at the time, under the
/// policy.
pub proof fn law_ordinary_redemption_is_ordered_for_the_most_debt<
    CollateralId: Copy,
    AccountId: Copy,
>(
    pallet: Pallet<CollateralId, AccountId>,
    stable_id: StableId,
    config: RedemptionConfig<u128>,
    price: FixedU128,
    terms: RedemptionTerms<u128>,
    max_steps: u32,
    readings: Readings,
    target: (AccountId, VaultStatus),
    projection: Projection,
    stablecoin_debt: u128,
    budget: u128,
)
    requires
        target.1 != VaultStatus::FinalRecovery,
        budget <= terms.max_stable_to_spend,
        budget <= readings.redeemer.preserved,
        budget == terms.max_stable_to_spend || budget == readings.redeemer.preserved,
        config.dynamic_fee_floor.inner <= config.dynamic_fee_ceiling.inner,
        config.base_fee.parts() <= 1_000_000,
        config.fee_ceiling.parts() <= 1_000_000,
    ensures
        ({
            let ordered = pallet.redeem_order(
                stable_id,
                config,
                price,
                terms,
                max_steps,
                readings,
                target,
                projection,
                stablecoin_debt,
            );
            let state = if pallet.states@.contains_key(stable_id) {
                pallet.states@[stable_id]
            } else {
                RedemptionState { dynamic_fee: FixedU128 { inner: 0 }, last_fee_operation: 0 }
            };
            match ordered {
                Ok(RedeemOrder::Recovery(_)) => false,
                Ok(RedeemOrder::Ordinary(order)) => {
                    let curve = order.fee_inputs.curve;
                    &&& order.first_owner == target.0 && order.first_status == target.1
                    &&& order.terms == terms
                    &&& order.fee_inputs.now == readings.now
                    &&& order.fee_inputs.state == state
                    &&& curve.decayed.inner == state.fee_at(readings.now, config)
                    &&& curve.debt == stablecoin_debt
                    &&& curve.divisor == config.dynamic_fee_increase_divisor
                    &&& curve.dynamic_fee_ceiling == config.dynamic_fee_ceiling
                    &&& curve.base_fee == config.base_fee
                    &&& curve.fee_ceiling == config.fee_ceiling
                    &&& config.minimum_redemption_amount <= order.debt_budget
                    &&& order.planned_fee == fee_of(curve)(order.debt_budget as int)
                    &&& order.debt_budget + order.planned_fee <= budget
                    &&& order.debt_budget == budget || order.debt_budget + 1 + fee_of(curve)(
                        order.debt_budget + 1,
                    ) > budget
                    &&& order.step_cap <= pallet.max_redemption_steps
                    &&& max_steps == 0 ==> order.step_cap == pallet.max_redemption_steps
                    &&& 0 < max_steps <= pallet.max_redemption_steps ==> order.step_cap == max_steps
                    &&& max_steps > pallet.max_redemption_steps ==> order.step_cap
                        == pallet.max_redemption_steps
                },
                Err(failure) => {
                    &&& failure == Failure::Pallet(
                        if readings.redeemer.preserved < terms.max_stable_to_spend {
                            Error::InsufficientStableBalance
                        } else {
                            Error::BelowMinimumRedemptionAmount
                        },
                    )
                    &&& {
                        let curve = pallet.fee_inputs_spec(
                            stable_id,
                            config,
                            readings.now,
                            stablecoin_debt,
                        ).curve;
                        exists|debt: int|
                            {
                                &&& 0 <= debt < config.minimum_redemption_amount
                                &&& debt <= budget
                                &&& debt == budget || debt + 1 + #[trigger] fee_of(curve)(debt + 1)
                                    > budget
                            }
                    }
                },
            }
        }),
{
    let inputs = pallet.fee_inputs_spec(stable_id, config, readings.now, stablecoin_debt);
    let curve = inputs.curve;
    let fee = fee_of(curve);
    let debt = bought(fee, budget as int);
    law_bought_debt_fits_and_one_more_does_not(fee, budget as int);
    law_redeeming_nothing_costs_and_moves_nothing(curve, u128::MAX as int);
    config.base_fee.lemma_parts_are_natural();
    config.fee_ceiling.lemma_parts_are_natural();
    law_redemption_pays_its_rate(curve, debt as u128);
    assert(budget == least(
        terms.max_stable_to_spend as int,
        readings.redeemer.preserved as int,
    ));
    if debt < config.minimum_redemption_amount {
        let more = fee(debt + 1);
        assert(0 <= debt < config.minimum_redemption_amount && debt <= budget && (debt == budget
            || debt + 1 + more > budget));
    }
}

/// A receipt is for what the walk came to, with the fee on the debt that it cancelled, or the planned
/// fee if that is less.
pub proof fn law_receipt_charges_the_cancelled_debt<AccountId>(
    order: OrdinaryOrder<AccountId>,
    price: FixedU128,
    snapshots: Seq<Snapshot>,
)
    requires
        order.fee_inputs.curve.well_formed(),
    ensures
        ({
            let receipt = receipt_of(order, price, snapshots);
            let due = fee_of(order.fee_inputs.curve)(receipt.result.debt as int);
            &&& receipt.result == walked(
                snapshots,
                price,
                OrdinaryResult { remaining: order.debt_budget, steps: 0, debt: 0, collateral: 0 },
            )
            &&& receipt.fee <= order.planned_fee
            &&& receipt.fee <= due
            &&& receipt.fee == due || receipt.fee == order.planned_fee
        }),
{
    let receipt = receipt_of(order, price, snapshots);
    law_redemption_pays_its_rate(order.fee_inputs.curve, receipt.result.debt);
}

/// A recovery order is settled with what its plan costs the redeemer and the Insurance Fund together,
/// and nothing else: each must have been debited exactly its part, of one stablecoin.
pub proof fn law_recovery_is_settled_with_both_payments<AccountId>(
    order: RecoveryOrder<AccountId>,
    debt_payment: StableCredit,
    cover: Option<StableCredit>,
)
    requires
        order.plan.paid() + order.plan.covered() <= u128::MAX,
    ensures
        ({
            let settlement = recovery_payment(order, debt_payment, cover);
            let exact = debt_payment.amount == order.plan.paid();
            let covered = match cover {
                Some(cover) => cover.amount as int,
                None => 0,
            };
            &&& settlement matches Ok(settlement) ==> {
                &&& exact
                &&& covered == order.plan.covered()
                &&& cover matches Some(cover) ==> cover.asset == debt_payment.asset
                &&& settlement.debt_payment.asset == debt_payment.asset
                &&& settlement.debt_payment.amount == order.plan.paid() + order.plan.covered()
                &&& settlement.collateral_to_recipient == order.plan.received()
            }
            &&& settlement matches Err(failure) ==> {
                ||| !exact && failure == Failure::Dispatch(DispatchError::Corruption)
                ||| {
                    &&& exact && cover is Some && covered != order.plan.covered()
                    &&& failure == Failure::Dispatch(DispatchError::Corruption)
                }
                ||| {
                    &&& exact
                    &&& cover is None && order.plan.covered() > 0 || cover is Some
                        && cover->0.asset != debt_payment.asset && covered == order.plan.covered()
                    &&& failure == Failure::Pallet(Error::InsuranceFundWithdrawFailed)
                }
            }
        }),
{
}

/// An offset takes what a redeemer would settle the recovery head for at the same budget, but only
/// from a head above par; nothing is offset against a head that cannot be settled, or that takes
/// nothing of the budget.
pub proof fn law_offset_is_a_settlement_above_par<AccountId>(
    config: Option<RedemptionConfig<u128>>,
    price: Result<FixedU128, DispatchError>,
    fund: Payable,
    owner: AccountId,
    projection: Projection,
    max_debt_to_cancel: u128,
)
    ensures
        ({
            let decision = offset_of(config, price, fund, owner, projection, max_debt_to_cancel);
            match (config, price, projection) {
                (None, _, _) => decision == Err::<OffsetDecision<AccountId>, Failure>(
                    Failure::Pallet(Error::StablecoinNotRegistered),
                ),
                (Some(_), Err(_), _) => decision == Err::<OffsetDecision<AccountId>, Failure>(
                    Failure::Pallet(Error::OracleUnavailable),
                ),
                (Some(config), Ok(price), projection) => if price.inner == 0 {
                    decision == Err::<OffsetDecision<AccountId>, Failure>(
                        Failure::Pallet(Error::OracleUnavailable),
                    )
                } else {
                    match projection {
                        Err(error) => decision == Err::<OffsetDecision<AccountId>, Failure>(
                            Failure::Dispatch(error),
                        ),
                        Ok(head) => {
                            let plan = recovery_plan(head, price, max_debt_to_cancel, config, fund);
                            &&& decision == Ok::<OffsetDecision<AccountId>, Failure>(
                                OffsetDecision::BelowPar,
                            ) <==> plan is Ok && head.collateral * price.inner < head.debt * DIV
                            &&& decision matches Ok(
                                OffsetDecision::Available { owner: of, debt, collateral },
                            ) ==> {
                                &&& of == owner
                                &&& 0 < debt <= max_debt_to_cancel
                                &&& head.debt * DIV <= head.collateral * price.inner
                                &&& plan == Ok::<RecoveryPlan, Error>(
                                    RecoveryPlan::AbovePar { debt, collateral },
                                )
                            }
                            &&& decision == Ok::<OffsetDecision<AccountId>, Failure>(
                                OffsetDecision::NoTarget,
                            ) ==> plan is Err || plan->Ok_0.paid() == 0
                            &&& plan is Err ==> decision == Ok::<
                                OffsetDecision<AccountId>,
                                Failure,
                            >(OffsetDecision::NoTarget)
                            &&& decision is Ok
                        },
                    }
                },
            }
        }),
{
    if let (Some(config), Ok(price), Ok(head)) = (config, price, projection) {
        law_ratio_is_the_value_per_debt(head, price);
        law_recovery_plan_is_bounded(head, price, max_debt_to_cancel, config, fund);
    }
}

/// A quote that meets a recovery head is for its settlement at the whole budget, in one step and
/// without a fee; the step cap never truncates it.
pub proof fn law_recovery_quote_is_the_settlement<CollateralId: Copy, AccountId: Copy>(
    pallet: Pallet<CollateralId, AccountId>,
    stable_id: StableId,
    config: RedemptionConfig<u128>,
    max_stable_to_spend: u128,
    max_steps: u32,
    price: FixedU128,
    now: Millis,
    fund: Payable,
    stablecoin_debt: u128,
    targets: Seq<Projection>,
    head: Snapshot,
)
    requires
        pallet.configs@.contains_key(stable_id),
        pallet.configs@[stable_id] == config,
        config.minimum_redemption_amount <= max_stable_to_spend,
        0 < price.inner,
        targets.len() > 0,
        targets[0] == Ok::<Snapshot, DispatchError>(head),
        head.status == VaultStatus::FinalRecovery,
    ensures
        ({
            let quote = pallet.quote(
                stable_id,
                max_stable_to_spend,
                max_steps,
                Ok(price),
                now,
                fund,
                stablecoin_debt,
                targets,
            );
            match recovery_plan(head, price, max_stable_to_spend, config, fund) {
                Err(error) => quote == Err::<RedemptionQuote<u128>, Failure>(
                    Failure::Pallet(error),
                ),
                Ok(plan) => if plan.paid() == 0 && plan.covered() == 0 {
                    quote == Err::<RedemptionQuote<u128>, Failure>(
                        Failure::Pallet(Error::NoRedeemableVault),
                    )
                } else {
                    quote == Ok::<RedemptionQuote<u128>, Failure>(
                        RedemptionQuote {
                            debt_cancelled: plan.paid(),
                            collateral_out: plan.received(),
                            fee: 0,
                            steps: 1,
                            truncated: false,
                        },
                    )
                },
            }
        }),
{
}

/// An ordinary quote is for the most debt, of at least the minimum, that fits with its fee in the
/// budget, at the stablecoin's debt and its effective dynamic fee at the time, over as many targets
/// as may be visited. A queue without targets has nothing to redeem, and a first target that does
/// not project fails the quote.
pub proof fn law_ordinary_quote_is_for_the_most_debt<CollateralId: Copy, AccountId: Copy>(
    pallet: Pallet<CollateralId, AccountId>,
    stable_id: StableId,
    config: RedemptionConfig<u128>,
    max_stable_to_spend: u128,
    max_steps: u32,
    price: FixedU128,
    now: Millis,
    fund: Payable,
    stablecoin_debt: u128,
    targets: Seq<Projection>,
)
    requires
        pallet.configs@.contains_key(stable_id),
        pallet.configs@[stable_id] == config,
        config.minimum_redemption_amount <= max_stable_to_spend,
        0 < price.inner,
        config.dynamic_fee_floor.inner <= config.dynamic_fee_ceiling.inner,
        config.base_fee.parts() <= 1_000_000,
        config.fee_ceiling.parts() <= 1_000_000,
    ensures
        ({
            let quote = pallet.quote(
                stable_id,
                max_stable_to_spend,
                max_steps,
                Ok(price),
                now,
                fund,
                stablecoin_debt,
                targets,
            );
            let state = if pallet.states@.contains_key(stable_id) {
                pallet.states@[stable_id]
            } else {
                RedemptionState { dynamic_fee: FixedU128 { inner: 0 }, last_fee_operation: 0 }
            };
            let curve = DynamicFeeCurve {
                decayed: FixedU128 { inner: state.fee_at(now, config) as u128 },
                debt: stablecoin_debt,
                divisor: config.dynamic_fee_increase_divisor,
                dynamic_fee_ceiling: config.dynamic_fee_ceiling,
                base_fee: config.base_fee,
                fee_ceiling: config.fee_ceiling,
            };
            &&& targets.len() == 0 ==> quote == Err::<RedemptionQuote<u128>, Failure>(
                Failure::Pallet(Error::NoRedeemableVault),
            )
            &&& targets.len() > 0 ==> match targets[0] {
                Err(error) => quote == Err::<RedemptionQuote<u128>, Failure>(
                    Failure::Dispatch(error),
                ),
                Ok(first) => first.status != VaultStatus::FinalRecovery ==> {
                    let debt = bought(fee_of(curve), max_stable_to_spend as int);
                    &&& 0 <= debt <= max_stable_to_spend
                    &&& debt + fee_of(curve)(debt) <= max_stable_to_spend
                    &&& debt == max_stable_to_spend || debt + 1 + fee_of(curve)(debt + 1)
                        > max_stable_to_spend
                    &&& debt < config.minimum_redemption_amount ==> quote == Err::<
                        RedemptionQuote<u128>,
                        Failure,
                    >(Failure::Pallet(Error::BelowMinimumRedemptionAmount))
                    &&& debt >= config.minimum_redemption_amount ==> quote == ordinary_quote(
                        targets,
                        price,
                        curve,
                        debt as u128,
                        if max_steps == 0 || max_steps > pallet.max_redemption_steps {
                            pallet.max_redemption_steps
                        } else {
                            max_steps
                        },
                    )
                },
            }
        }),
{
    let curve = pallet.fee_inputs_spec(stable_id, config, now, stablecoin_debt).curve;
    let fee = fee_of(curve);
    law_bought_debt_fits_and_one_more_does_not(fee, max_stable_to_spend as int);
    law_redeeming_nothing_costs_and_moves_nothing(curve, u128::MAX as int);
}

/// The head of the recovery list is settled before any ordinary vault: where the first target is in
/// recovery, the order is to settle it as its owner's vault projects, from what the redeemer and the
/// Insurance Fund can pay, or the reason for which it cannot be; no ordinary order comes of it.
pub proof fn law_recovery_head_is_settled_first<CollateralId: Copy, AccountId: Copy>(
    pallet: Pallet<CollateralId, AccountId>,
    stable_id: StableId,
    config: RedemptionConfig<u128>,
    price: FixedU128,
    terms: RedemptionTerms<u128>,
    max_steps: u32,
    readings: Readings,
    owner: AccountId,
    projection: Projection,
    stablecoin_debt: u128,
)
    ensures
        ({
            let ordered = pallet.redeem_order(
                stable_id,
                config,
                price,
                terms,
                max_steps,
                readings,
                (owner, VaultStatus::FinalRecovery),
                projection,
                stablecoin_debt,
            );
            match projection {
                Err(error) => ordered == Err::<RedeemOrder<AccountId>, Failure>(
                    Failure::Dispatch(error),
                ),
                Ok(head) => match recovery_order(
                    owner,
                    head,
                    price,
                    config,
                    terms,
                    readings.redeemer,
                    readings.fund,
                ) {
                    Ok(order) => ordered == Ok::<RedeemOrder<AccountId>, Failure>(
                        RedeemOrder::Recovery(order),
                    ),
                    Err(error) => ordered == Err::<RedeemOrder<AccountId>, Failure>(
                        Failure::Pallet(error),
                    ),
                },
            }
        }),
{
}

/// An offset is decided on the vault that the vault engine offers first, and only if that is in
/// recovery; without such a head there is nothing to offset. An offset that goes through cancels the
/// decided debt in the payment's stablecoin, for the decided collateral, at the head's owner's vault,
/// and hands back what is left of the payment.
pub proof fn law_offset_is_settled_as_decided<
    CollateralId: Copy,
    AccountId: Copy,
    V: VaultInterface<CollateralId = CollateralId, AccountId = AccountId>,
>(
    pallet: Pallet<CollateralId, AccountId>,
    before: V,
    collateral_id: CollateralId,
    price: Result<FixedU128, DispatchError>,
    fund: Payable,
    payment: StableCredit,
    recipient: AccountId,
    executed: Result<(RecoveryOffsetResult<u128>, StableCredit), Failure>,
    after: V,
    target: Option<(AccountId, VaultStatus)>,
    projection: Projection,
)
    requires
        reads_one_head(before, collateral_id, payment.asset),
        call_ensures(
            V::next_redemption_target,
            (&before, collateral_id, payment.asset, None::<AccountId>),
            target,
        ),
        target matches Some((owner, _)) ==> call_ensures(
            V::project_redemption_snapshot,
            (&before, collateral_id, payment.asset, owner),
            projection,
        ),
        pallet.executes_offset(
            before,
            collateral_id,
            price,
            fund,
            payment,
            recipient,
            executed,
            after,
        ),
    ensures
        ({
            let config = if pallet.configs@.contains_key(payment.asset) {
                Some(pallet.configs@[payment.asset])
            } else {
                None
            };
            match target {
                Some((owner, VaultStatus::FinalRecovery)) => match offset_of(
                    config,
                    price,
                    fund,
                    owner,
                    projection,
                    payment.amount,
                ) {
                    Ok(OffsetDecision::Available { owner, debt, collateral }) => match executed {
                        Ok((result, change)) => {
                            &&& result == RecoveryOffsetResult::<u128>::Applied {
                                collateral_out: collateral,
                            }
                            &&& change.asset == payment.asset
                            &&& change.amount + debt == payment.amount
                            &&& V::settles(
                                before,
                                collateral_id,
                                payment.asset,
                                owner,
                                recipient,
                                (RedemptionSettlement {
                                    debt_payment: (StableCredit {
                                        asset: payment.asset,
                                        amount: debt,
                                    }),
                                    collateral_to_recipient: collateral,
                                }),
                                Ok(()),
                                after,
                            )
                        },
                        Err(failure) => failure is Dispatch,
                    },
                    Ok(OffsetDecision::NoTarget) => executed == Ok::<
                        (RecoveryOffsetResult<u128>, StableCredit),
                        Failure,
                    >((RecoveryOffsetResult::NoTarget, payment)) && after == before,
                    Ok(OffsetDecision::BelowPar) => executed == Ok::<
                        (RecoveryOffsetResult<u128>, StableCredit),
                        Failure,
                    >((RecoveryOffsetResult::BelowPar, payment)) && after == before,
                    Err(failure) => executed == Err::<
                        (RecoveryOffsetResult<u128>, StableCredit),
                        Failure,
                    >(failure) && after == before,
                },
                _ => executed == Ok::<(RecoveryOffsetResult<u128>, StableCredit), Failure>(
                    (RecoveryOffsetResult::NoTarget, payment),
                ) && after == before,
            }
        }),
{
}

/// What a quote asks the redeemer to supply is the debt that it cancels and the fee, as far as the
/// sum is representable.
pub proof fn law_quote_asks_for_debt_and_fee(quote: RedemptionQuote<u128>, total: u128)
    requires
        call_ensures(RedemptionQuote::<u128>::stable_in, (&quote,), total),
    ensures
        quote.debt_cancelled + quote.fee <= u128::MAX ==> total == quote.debt_cancelled + quote.fee,
        quote.debt_cancelled + quote.fee > u128::MAX ==> total == u128::MAX,
{
}

/// A redemption goes by the first target that the vault engine offers. Without one there is nothing to
/// redeem; one in recovery is settled as the engine projects its vault; any other starts a walk that
/// is priced against the stablecoin's debt as the engine counts it.
pub proof fn law_redemption_reads_its_first_target<
    CollateralId: Copy,
    AccountId: Copy,
    V: VaultInterface<CollateralId = CollateralId, AccountId = AccountId>,
>(
    pallet: Pallet<CollateralId, AccountId>,
    vaults: V,
    collateral_id: CollateralId,
    stable_id: StableId,
    config: RedemptionConfig<u128>,
    price: FixedU128,
    terms: RedemptionTerms<u128>,
    max_steps: u32,
    readings: Readings,
    target: Option<(AccountId, VaultStatus)>,
    order: Result<RedeemOrder<AccountId>, Failure>,
)
    requires
        pallet.orders(
            vaults,
            collateral_id,
            stable_id,
            config,
            price,
            terms,
            max_steps,
            readings,
            target,
            order,
        ),
    ensures
        target is None ==> order == Err::<RedeemOrder<AccountId>, Failure>(
            Failure::Pallet(Error::NoRedeemableVault),
        ),
        target matches Some((owner, VaultStatus::FinalRecovery)) ==> {
            &&& order matches Ok(order) ==> order is Recovery
            &&& exists|projection: Projection|
                {
                    &&& #[trigger] call_ensures(
                        V::project_redemption_snapshot,
                        (&vaults, collateral_id, stable_id, owner),
                        projection,
                    )
                    &&& projection matches Err(error) ==> order == Err::<
                        RedeemOrder<AccountId>,
                        Failure,
                    >(Failure::Dispatch(error))
                    &&& projection matches Ok(head) ==> (order is Ok <==> recovery_order(
                        owner,
                        head,
                        price,
                        config,
                        terms,
                        readings.redeemer,
                        readings.fund,
                    ) is Ok)
                }
        },
        target matches Some((owner, status)) ==> status != VaultStatus::FinalRecovery ==> {
            &&& order matches Ok(order) ==> order is Ordinary
            &&& order matches Err(failure) ==> failure is Pallet
            &&& exists|debt: u128|
                {
                    &&& #[trigger] call_ensures(V::stablecoin_debt, (&vaults, stable_id), debt)
                    &&& order matches Ok(RedeemOrder::Ordinary(order))
                        ==> order.fee_inputs.curve.debt == debt && order.first_owner == owner
                        && order.first_status == status
                }
        },
{
}

/// A quote goes by what the vault engine projects for its quote targets in order, each once, until
/// there are as many as asked for, no more, or one that does not project.
pub proof fn law_quote_reads_the_queue_in_order<V: VaultInterface>(
    vaults: V,
    collateral_id: V::CollateralId,
    stable_id: StableId,
    count: u32,
    targets: Seq<Projection>,
    nth: int,
)
    requires
        projections_of(vaults, collateral_id, stable_id, count, targets),
    ensures
        targets.len() <= count,
        0 <= nth < targets.len() ==> exists|owner: V::AccountId|
            {
                &&& call_ensures(
                    V::redemption_quote_targets,
                    (&vaults, collateral_id, stable_id, nth as u32),
                    Some(owner),
                )
                &&& #[trigger] call_ensures(
                    V::project_redemption_snapshot,
                    (&vaults, collateral_id, stable_id, owner),
                    targets[nth],
                )
            },
        targets.len() == count || targets.len() > 0 && targets[targets.len() - 1] is Err
            || call_ensures(
            V::redemption_quote_targets,
            (&vaults, collateral_id, stable_id, targets.len() as u32),
            None::<V::AccountId>,
        ),
{
    if 0 <= nth < targets.len() {
        assert(projects(vaults, collateral_id, stable_id, nth, targets[nth]));
    }
}

} // verus!
