//! What a redemption owes to its quote.

use crate::arithmetic::{least, FixedU128, Rounding, DIV};
use crate::primitives::credit::StableId;
use crate::primitives::math::lemma_rounded_is_natural;
use crate::primitives::vault::VaultStatus;
use crate::primitives::vault_interface::{
    law_sized_payment_is_the_largest_within_the_budget, VaultInterface,
};
use crate::redemptions::fee_laws::{
    law_bought_debt_fits_and_one_more_does_not, law_bought_debt_is_the_greatest,
    lemma_mean_fee_by_rise,
};
use crate::redemptions::fees::{bought, DynamicFeeCurve};
use crate::redemptions::error::{Error, Failure};
use crate::redemptions::pallet::{
    receipt_of, redemption_inputs_spec, OrdinaryOrder, Pallet, Readings, RedeemOrder,
};
use crate::redemptions::recovery::{
    law_recovery_plan_is_bounded, recovery_plan, Payable, RecoveryOrder, Snapshot,
};
use crate::redemptions::redemption::{
    begins_with, fee_of, goes_on, law_ordinary_step_is_bounded, law_quote_agrees_with_walk,
    priced_step, quoted, unfinished, walkable, walked, walks, OrdinaryResult, Projection, Step, Trail, WalkContext,
};
use crate::redemptions::types::{RedemptionConfig, RedemptionQuote, RedemptionTerms};
use vstd::prelude::*;

verus! {

/// A quote only adds to its progress, within its budget, and pays out only for debt.
proof fn lemma_quote_adds(
    targets: Seq<Projection>,
    price: FixedU128,
    step_cap: u32,
    so_far: OrdinaryResult,
)
    requires
        so_far.remaining + so_far.debt <= u128::MAX,
    ensures
        quoted(targets, price, step_cap, so_far) matches Ok((result, _)) ==> {
            &&& so_far.debt <= result.debt
            &&& result.remaining + result.debt == so_far.remaining + so_far.debt
            &&& result.debt == so_far.debt ==> result.collateral == so_far.collateral
            &&& so_far.steps <= result.steps
        },
    decreases targets.len(),
{
    if so_far.remaining != 0 && so_far.steps < step_cap && targets.len() > 0 {
        if let Ok(snapshot) = targets[0] {
            let step = priced_step(snapshot, price, so_far.remaining);
            law_ordinary_step_is_bounded(snapshot, price, so_far.remaining);
            if step != Step::Stop {
                lemma_quote_adds(targets.skip(1), price, step_cap, so_far.after(step));
            }
        }
    }
}

/// Whether a target's payoff has a face value in collateral that a balance holds.
pub open spec fn convertible(target: Projection, price: FixedU128) -> bool {
    target matches Ok(snapshot) ==> snapshot.payoff() * DIV / price.inner as int <= u128::MAX
}

/// A target that redeems less than a budget redeems the same under any smaller budget that still
/// covers it.
proof fn lemma_same_step(snapshot: Snapshot, price: FixedU128, larger: u128, smaller: u128)
    requires
        0 < smaller <= larger,
        price.inner > 0,
        convertible(Ok(snapshot), price),
        priced_step(snapshot, price, larger) matches Step::Redeem { debt, .. } ==> debt <= smaller
            && (debt == larger ==> smaller == larger),
    ensures
        priced_step(snapshot, price, smaller) == priced_step(snapshot, price, larger),
{
    let debt = snapshot.sized(larger as int);
    law_sized_payment_is_the_largest_within_the_budget(snapshot, larger as int, 0);
    assert(debt <= snapshot.payoff());
    assert(0 <= debt * DIV / price.inner as int <= snapshot.payoff() * DIV / price.inner as int)
        by (nonlinear_arith)
        requires
            0 <= debt <= snapshot.payoff(),
            0 < price.inner,
            DIV > 0,
    ;
}

/// What a quote comes to under a smaller budget, from progress that differs in the budget alone.
proof fn lemma_smaller_budget(
    targets: Seq<Projection>,
    price: FixedU128,
    step_cap: u32,
    larger: OrdinaryResult,
    smaller: OrdinaryResult,
)
    requires
        price.inner > 0,
        forall|i: int| 0 <= i < targets.len() ==> convertible(#[trigger] targets[i], price),
        larger.remaining + larger.debt <= u128::MAX,
        smaller == (OrdinaryResult { remaining: smaller.remaining, ..larger }),
        smaller.remaining <= larger.remaining,
        quoted(targets, price, step_cap, larger) matches Ok((result, _)) && result.debt
            - larger.debt <= smaller.remaining,
    ensures
        quoted(targets, price, step_cap, smaller) matches Ok((result, _)) && {
            let full = quoted(targets, price, step_cap, larger)->Ok_0.0;
            &&& result.debt == full.debt
            &&& result.collateral == full.collateral
            &&& result.steps <= full.steps
            &&& full.debt - larger.debt < smaller.remaining ==> result.steps == full.steps
        },
    decreases targets.len(),
{
    lemma_quote_adds(targets, price, step_cap, larger);
    if smaller.remaining != 0 && larger.steps < step_cap && targets.len() > 0 {
        let snapshot = targets[0]->Ok_0;
        let step = priced_step(snapshot, price, larger.remaining);
        law_ordinary_step_is_bounded(snapshot, price, larger.remaining);
        if step != Step::Stop {
            lemma_quote_adds(targets.skip(1), price, step_cap, larger.after(step));
        }
        lemma_same_step(snapshot, price, larger.remaining, smaller.remaining);
        if step != Step::Stop {
            lemma_smaller_budget(
                targets.skip(1),
                price,
                step_cap,
                larger.after(step),
                smaller.after(step),
            );
        }
    }
}

/// A redemption whose debt budget covers what a quote cancels honours the quote, also where the
/// redeemer's balance makes that budget smaller than the quote's: it cancels the same debt for the
/// same collateral, in no more steps, and in the same where some of the budget stays. Left out are targets whose payoff exceeds every balance at
/// face value, since a smaller part of it may still have one.
pub proof fn law_smaller_budget_honours_the_quote(
    targets: Seq<Projection>,
    price: FixedU128,
    step_cap: u32,
    quoted_budget: u128,
    budget: u128,
)
    requires
        price.inner > 0,
        forall|i: int| 0 <= i < targets.len() ==> convertible(#[trigger] targets[i], price),
        budget <= quoted_budget,
    ensures
        quoted(targets, price, step_cap, OrdinaryResult::start(quoted_budget)) matches Ok((quote, _))
            ==> quote.debt <= budget ==> {
            &&& quoted(targets, price, step_cap, OrdinaryResult::start(budget)) is Ok
            &&& {
                let result = quoted(
                    targets,
                    price,
                    step_cap,
                    OrdinaryResult::start(budget),
                )->Ok_0.0;
                &&& result.debt == quote.debt
                &&& result.collateral == quote.collateral
                &&& result.steps <= quote.steps
                &&& quote.debt < budget ==> result.steps == quote.steps
            }
        },
{
    let start = OrdinaryResult::start(quoted_budget);
    if let Ok((quote, _)) = quoted(targets, price, step_cap, start) {
        if quote.debt <= budget {
            lemma_smaller_budget(targets, price, step_cap, start, OrdinaryResult::start(budget));
        }
    }
}

/// Whether a fee never falls as the debt grows.
pub open spec fn never_falls(fee: spec_fn(int) -> int) -> bool {
    forall|less: int, more: int| 0 <= less <= more ==> #[trigger] fee(less) <= #[trigger] fee(more)
}

/// A curve charges a fee that a balance holds.
proof fn lemma_fee_is_natural(curve: DynamicFeeCurve)
    requires
        curve.well_formed(),
    ensures
        forall|debt: int| 0 <= debt ==> 0 <= #[trigger] fee_of(curve)(debt) <= u128::MAX,
{
    assert forall|debt: int| 0 <= debt implies 0 <= #[trigger] fee_of(curve)(debt)
        <= u128::MAX by {
        lemma_mean_fee_by_rise(curve, debt);
        curve.base_fee.lemma_parts_are_natural();
        curve.fee_ceiling.lemma_parts_are_natural();
        let rate = curve.rate(debt);
        assert(0 <= debt * rate) by (nonlinear_arith)
            requires
                0 <= debt,
                0 <= rate,
        ;
        lemma_rounded_is_natural(debt * rate, DIV as int, Rounding::Up);
    }
}

/// A recovery plan that pays less than its budget is the same under any smaller budget that still
/// covers it.
proof fn lemma_same_plan(
    snapshot: Snapshot,
    price: FixedU128,
    config: RedemptionConfig<u128>,
    fund: Payable,
    larger: u128,
    smaller: u128,
)
    requires
        smaller <= larger,
        recovery_plan(snapshot, price, larger, config, fund) matches Ok(plan) && plan.paid()
            <= smaller,
    ensures
        recovery_plan(snapshot, price, smaller, config, fund) == recovery_plan(
            snapshot,
            price,
            larger,
            config,
            fund,
        ),
{
}

/// A redemption of the recovery head honours its quote: a redeemer who can pay what was quoted while
/// keeping their minimum balance pays and receives exactly that, without a fee.
pub proof fn law_recovery_redemption_honours_its_quote<CollateralId: Copy, AccountId: Copy>(
    pallet: Pallet<CollateralId, AccountId>,
    stable_id: StableId,
    terms: RedemptionTerms<u128>,
    max_steps: u32,
    readings: Readings,
    config: RedemptionConfig<u128>,
    price: FixedU128,
    target: (AccountId, VaultStatus),
    stablecoin_debt: u128,
    targets: Seq<Projection>,
    quote: RedemptionQuote<u128>,
    order: RecoveryOrder<AccountId>,
)
    requires
        redemption_inputs_spec(pallet.config(stable_id), terms.max_stable_to_spend, readings.price)
            == Ok::<(RedemptionConfig<u128>, FixedU128), Error>((config, price)),
        pallet.quote(
            stable_id,
            terms.max_stable_to_spend,
            max_steps,
            readings.price,
            readings.now,
            readings.fund,
            stablecoin_debt,
            targets,
        ) == Ok::<RedemptionQuote<u128>, Failure>(quote),
        readings.redeemer.consistent(),
        quote.debt_cancelled + quote.fee <= readings.redeemer.preserved,
        targets[0] matches Ok(first) && first.status == target.1,
        pallet.redeem_order(
            stable_id,
            config,
            price,
            terms,
            max_steps,
            readings,
            target,
            targets[0],
            stablecoin_debt,
        ) == Ok::<RedeemOrder<AccountId>, Failure>(RedeemOrder::Recovery(order)),
    ensures
        order.plan.paid() == quote.debt_cancelled,
        order.plan.received() == quote.collateral_out,
        quote.fee == 0,
{
    let snapshot = targets[0]->Ok_0;
    let budget = least(
        terms.max_stable_to_spend as int,
        readings.redeemer.expendable as int,
    ) as u128;
    law_recovery_plan_is_bounded(
        snapshot,
        price,
        terms.max_stable_to_spend,
        config,
        readings.fund,
    );
    lemma_same_plan(
        snapshot,
        price,
        config,
        readings.fund,
        terms.max_stable_to_spend,
        budget,
    );
}

/// A walk over quoted targets, under a budget that covers what the quote cancels.
#[verifier::spinoff_prover]
proof fn lemma_walk_meets_the_quote(
    targets: Seq<Projection>,
    snapshots: Seq<Snapshot>,
    price: FixedU128,
    step_cap: u32,
    quoted_budget: u128,
    budget: u128,
)
    requires
        price.inner > 0,
        begins_with(targets, snapshots),
        walkable(snapshots, price, OrdinaryResult::start(budget)),
        snapshots.len() <= step_cap,
        goes_on(snapshots, price, OrdinaryResult::start(budget), step_cap) ==> targets.len()
            == snapshots.len(),
        budget <= quoted_budget,
        budget < quoted_budget ==> forall|i: int|
            0 <= i < targets.len() ==> convertible(#[trigger] targets[i], price),
        quoted(targets, price, step_cap, OrdinaryResult::start(quoted_budget)) matches Ok((quote, _))
            && quote.debt <= budget,
    ensures
        ({
            let quote = quoted(
                targets,
                price,
                step_cap,
                OrdinaryResult::start(quoted_budget),
            )->Ok_0.0;
            let result = walked(snapshots, price, OrdinaryResult::start(budget));
            &&& result.debt == quote.debt
            &&& result.collateral == quote.collateral
            &&& result.steps <= quote.steps
            &&& budget == quoted_budget || quote.debt < budget ==> result.steps == quote.steps
        }),
{
    law_quote_agrees_with_walk(targets, snapshots, price, budget, step_cap);
    if budget < quoted_budget {
        law_smaller_budget_honours_the_quote(targets, price, step_cap, quoted_budget, budget);
    }
}

/// An ordinary redemption honours its quote: where the walk visits the projected targets in order,
/// and ends with them where nothing else ends it, it cancels the quoted debt for the quoted
/// collateral and fee.
///
/// The fee is monotonic only up to rounding. Left out is a redeemer whose balance therefore buys less
/// debt than the quote cancels, or more than the whole budget does, though it covers the quote; and
/// a fee that falls from the quoted debt to the debt that the order was planned for is charged at
/// the planned one. Neither happens under a fee that never falls, and the first never to a balance
/// that covers the whole budget. A smaller budget that the quoted debt spends to the end visits no
/// target behind it, so that the steps may then be fewer than quoted. A balance short of the budget
/// also leaves out targets whose payoff exceeds every balance at face value.
#[verifier::spinoff_prover]
pub proof fn law_ordinary_redemption_honours_its_quote<
    CollateralId: Copy,
    AccountId: Copy,
    V: VaultInterface<CollateralId = CollateralId, AccountId = AccountId>,
>(
    pallet: Pallet<CollateralId, AccountId>,
    context: WalkContext<CollateralId, AccountId>,
    terms: RedemptionTerms<u128>,
    max_steps: u32,
    readings: Readings,
    config: RedemptionConfig<u128>,
    target: (AccountId, VaultStatus),
    stablecoin_debt: u128,
    targets: Seq<Projection>,
    quote: RedemptionQuote<u128>,
    order: OrdinaryOrder<AccountId>,
    trail: Trail<V>,
    before: V,
    after: V,
)
    requires
        redemption_inputs_spec(
            pallet.config(context.stable_id),
            terms.max_stable_to_spend,
            readings.price,
        ) == Ok::<(RedemptionConfig<u128>, FixedU128), Error>((config, context.price)),
        pallet.quote(
            context.stable_id,
            terms.max_stable_to_spend,
            max_steps,
            readings.price,
            readings.now,
            readings.fund,
            stablecoin_debt,
            targets,
        ) == Ok::<RedemptionQuote<u128>, Failure>(quote),
        order.fee_inputs.curve.well_formed(),
        quote.debt_cancelled + quote.fee <= readings.redeemer.preserved,
        targets[0] matches Ok(first) && first.status == target.1,
        pallet.redeem_order(
            context.stable_id,
            config,
            context.price,
            terms,
            max_steps,
            readings,
            target,
            targets[0],
            stablecoin_debt,
        ) == Ok::<RedeemOrder<AccountId>, Failure>(RedeemOrder::Ordinary(order)),
        walks(
            trail,
            context,
            OrdinaryResult::start(order.debt_budget),
            (order.first_owner, order.first_status),
            context.stable_id,
            order.step_cap,
            before,
            after,
        ),
        begins_with(targets, trail.snapshots),
        unfinished(
            trail,
            context.price,
            OrdinaryResult::start(order.debt_budget),
            order.step_cap,
        ) ==> targets.len() == trail.snapshots.len(),
        readings.redeemer.preserved < terms.max_stable_to_spend ==> forall|i: int|
            0 <= i < targets.len() ==> convertible(#[trigger] targets[i], context.price),
    ensures
        quote.debt_cancelled <= order.debt_budget <= bought(
            fee_of(order.fee_inputs.curve),
            terms.max_stable_to_spend as int,
        ) ==> {
            let receipt = receipt_of(order, context.price, trail.snapshots);
            &&& receipt.result.debt == quote.debt_cancelled
            &&& receipt.result.collateral == quote.collateral_out
            &&& receipt.fee == least(quote.fee as int, order.planned_fee as int)
            &&& receipt.result.steps <= quote.steps
            &&& readings.redeemer.preserved >= terms.max_stable_to_spend || quote.debt_cancelled
                < order.debt_budget ==> receipt.result.steps == quote.steps
        },
        readings.redeemer.preserved >= terms.max_stable_to_spend || never_falls(
            fee_of(order.fee_inputs.curve),
        ) ==> quote.debt_cancelled <= order.debt_budget <= bought(
            fee_of(order.fee_inputs.curve),
            terms.max_stable_to_spend as int,
        ),
        never_falls(fee_of(order.fee_inputs.curve)) && quote.debt_cancelled <= order.debt_budget
            ==> quote.fee <= order.planned_fee,
{
    let curve = order.fee_inputs.curve;
    let fee = fee_of(curve);
    let whole = bought(fee, terms.max_stable_to_spend as int);
    let payable = least(
        terms.max_stable_to_spend as int,
        readings.redeemer.preserved as int,
    );
    lemma_fee_is_natural(curve);
    law_bought_debt_fits_and_one_more_does_not(fee, terms.max_stable_to_spend as int);
    law_bought_debt_fits_and_one_more_does_not(fee, payable);
    lemma_quote_adds(
        targets,
        context.price,
        order.step_cap,
        OrdinaryResult::start(whole as u128),
    );
    if quote.debt_cancelled <= order.debt_budget <= whole {
        lemma_walk_meets_the_quote(
            targets,
            trail.snapshots,
            context.price,
            order.step_cap,
            whole as u128,
            order.debt_budget,
        );
    }
    if never_falls(fee) {
        law_bought_debt_is_the_greatest(fee, payable, quote.debt_cancelled as int);
        law_bought_debt_is_the_greatest(
            fee,
            terms.max_stable_to_spend as int,
            order.debt_budget as int,
        );
    }
}

} // verus!
