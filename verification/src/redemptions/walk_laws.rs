//! What a walk over vaults adds up to, and why it ends.

use crate::arithmetic::FixedU128;
use crate::primitives::credit::{StableCredit, StableId};
use crate::primitives::error::DispatchError;
use crate::primitives::vault::VaultStatus;
use crate::primitives::vault_interface::{RedemptionSettlement, VaultInterface};
use crate::redemptions::error::{Error, Failure};
use crate::redemptions::fees::DynamicFeeCurve;
use crate::redemptions::recovery::Snapshot;
use crate::redemptions::redemption::{
    breaks_off, fee_of, law_ordinary_step_is_bounded, law_quote_agrees_with_walk, lemma_quote_follows_walk,
    lemma_walk_begins, ordinary_quote, priced_step, quoted, walkable, walked, walks,
    OrdinaryResult, Projection, Step, Trail, WalkContext,
};
use crate::redemptions::types::RedemptionQuote;
use vstd::prelude::*;

verus! {

/// Debt that steps cancel together.
pub open spec fn cancelled(steps: Seq<Step>) -> int
    decreases steps.len(),
{
    if steps.len() == 0 {
        0
    } else {
        cancelled(steps.drop_last()) + match steps.last() {
            Step::Redeem { debt, .. } => debt as int,
            _ => 0,
        }
    }
}

/// Collateral that steps pay out together.
pub open spec fn paid_out(steps: Seq<Step>) -> int
    decreases steps.len(),
{
    if steps.len() == 0 {
        0
    } else {
        paid_out(steps.drop_last()) + match steps.last() {
            Step::Redeem { collateral, .. } => collateral as int,
            _ => 0,
        }
    }
}

/// Whether each of `steps` is what its target contributes with what those before it left of the
/// budget.
pub open spec fn steps_of(
    snapshots: Seq<Snapshot>,
    price: FixedU128,
    budget: u128,
    steps: Seq<Step>,
) -> bool {
    &&& steps.len() == snapshots.len()
    &&& forall|i: int|
        0 <= i < steps.len() ==> #[trigger] steps[i] == priced_step(
            snapshots[i],
            price,
            (budget - cancelled(steps.take(i))) as u128,
        )
}

/// Whether there is budget before each of `steps`, and none but the last stops.
pub open spec fn unbroken(budget: u128, steps: Seq<Step>) -> bool {
    &&& forall|i: int| 0 <= i < steps.len() ==> cancelled(#[trigger] steps.take(i)) < budget
    &&& forall|i: int| 0 <= i < steps.len() - 1 ==> #[trigger] steps[i] != Step::Stop
}

/// Whether `steps` end with one that stops.
pub open spec fn stopped(steps: Seq<Step>) -> bool {
    steps.len() > 0 && steps.last() == Step::Stop
}

/// Owner of the last target that was skipped.
pub open spec fn last_skipped<AccountId>(owners: Seq<AccountId>, steps: Seq<Step>) -> Option<
    AccountId,
>
    decreases steps.len(),
{
    if steps.len() == 0 {
        None
    } else if steps.last() == Step::Skip {
        Some(owners[steps.len() - 1])
    } else {
        last_skipped(owners, steps.drop_last())
    }
}

/// What is said of steps is said of all but the last.
proof fn lemma_earlier_steps(
    snapshots: Seq<Snapshot>,
    price: FixedU128,
    budget: u128,
    steps: Seq<Step>,
)
    requires
        steps_of(snapshots, price, budget, steps),
        steps.len() > 0,
    ensures
        steps_of(snapshots.drop_last(), price, budget, steps.drop_last()),
        steps.last() == priced_step(
            snapshots.last(),
            price,
            (budget - cancelled(steps.drop_last())) as u128,
        ),
        unbroken(budget, steps) <==> unbroken(budget, steps.drop_last()) && cancelled(
            steps.drop_last(),
        ) < budget && !stopped(steps.drop_last()),
{
    let earlier = steps.drop_last();
    let last = steps.len() - 1;
    assert(steps.take(last) == earlier);
    assert forall|i: int| 0 <= i < earlier.len() implies #[trigger] earlier[i] == priced_step(
        snapshots.drop_last()[i],
        price,
        (budget - cancelled(earlier.take(i))) as u128,
    ) by {
        assert(earlier.take(i) == steps.take(i));
        assert(steps[i] == earlier[i]);
    }
    if unbroken(budget, steps) {
        assert forall|i: int| 0 <= i < earlier.len() implies cancelled(#[trigger] earlier.take(i))
            < budget by {
            assert(earlier.take(i) == steps.take(i));
        }
        assert(cancelled(steps.take(last)) < budget);
        assert forall|i: int| 0 <= i < earlier.len() - 1 implies #[trigger] earlier[i]
            != Step::Stop by {
            assert(steps[i] == earlier[i]);
        }
        if earlier.len() > 0 {
            assert(steps[last - 1] != Step::Stop);
        }
    }
    if unbroken(budget, earlier) && cancelled(earlier) < budget && !stopped(earlier) {
        assert forall|i: int| 0 <= i < steps.len() implies cancelled(#[trigger] steps.take(i))
            < budget by {
            if i < last {
                assert(earlier.take(i) == steps.take(i));
            }
        }
        assert forall|i: int| 0 <= i < steps.len() - 1 implies #[trigger] steps[i] != Step::Stop by {
            assert(steps[i] == earlier[i]);
            if i == last - 1 {
                assert(earlier.last() == steps[i]);
            }
        }
    }
}

/// A walk comes to the sum of its steps, each priced with the budget that those before it left: the
/// debt that they cancel, which with what is left makes up the budget, and the collateral that they
/// pay out, as far as it is representable. Every visited target counts as a step.
pub proof fn law_walk_adds_up(
    snapshots: Seq<Snapshot>,
    price: FixedU128,
    budget: u128,
    steps: Seq<Step>,
)
    requires
        steps_of(snapshots, price, budget, steps),
        steps.len() <= u32::MAX,
    ensures
        ({
            let start = OrdinaryResult { remaining: budget, steps: 0, debt: 0, collateral: 0 };
            let result = walked(snapshots, price, start);
            &&& OrdinaryResult::start(budget) == start
            &&& 0 <= cancelled(steps) <= budget
            &&& 0 <= paid_out(steps)
            &&& result.debt == cancelled(steps)
            &&& result.remaining == budget - cancelled(steps)
            &&& result.steps == steps.len()
            &&& paid_out(steps) <= u128::MAX ==> result.collateral == paid_out(steps)
            &&& paid_out(steps) > u128::MAX ==> result.collateral == u128::MAX
            &&& walkable(snapshots, price, start) <==> unbroken(budget, steps)
        }),
    decreases steps.len(),
{
    if steps.len() > 0 {
        let earlier = steps.drop_last();
        lemma_earlier_steps(snapshots, price, budget, steps);
        law_walk_adds_up(snapshots.drop_last(), price, budget, earlier);
        let left = (budget - cancelled(earlier)) as u128;
        law_ordinary_step_is_bounded(snapshots.last(), price, left);
        if earlier.len() > 0 {
            lemma_earlier_steps(snapshots.drop_last(), price, budget, earlier);
            law_walk_adds_up(
                snapshots.drop_last().drop_last(),
                price,
                budget,
                earlier.drop_last(),
            );
        }
    }
}

/// A trail prices its targets as its steps do, and resumes behind the last that was skipped.
proof fn lemma_trail<V: VaultInterface>(
    trail: Trail<V>,
    price: FixedU128,
    budget: u128,
    steps: Seq<Step>,
)
    requires
        trail.owners.len() == trail.snapshots.len(),
        steps_of(trail.snapshots, price, budget, steps),
        steps.len() <= u32::MAX,
    ensures
        trail.cursor(price, OrdinaryResult::start(budget)) == last_skipped(trail.owners, steps),
        steps.len() > 0 ==> trail.last_step(price, OrdinaryResult::start(budget)) == steps.last(),
    decreases steps.len(),
{
    if steps.len() > 0 {
        let before = trail.earlier();
        lemma_earlier_steps(trail.snapshots, price, budget, steps);
        law_walk_adds_up(before.snapshots, price, budget, steps.drop_last());
        lemma_trail(before, price, budget, steps.drop_last());
        lemma_same_skipped(trail.owners, before.owners, steps.drop_last());
    }
}

/// The last skipped target depends on the owners of the steps' targets alone.
proof fn lemma_same_skipped<AccountId>(
    owners: Seq<AccountId>,
    others: Seq<AccountId>,
    steps: Seq<Step>,
)
    requires
        steps.len() <= owners.len(),
        steps.len() <= others.len(),
        forall|i: int| 0 <= i < steps.len() ==> owners[i] == others[i],
    ensures
        last_skipped(owners, steps) == last_skipped(others, steps),
    decreases steps.len(),
{
    if steps.len() > 0 {
        lemma_same_skipped(owners, others, steps.drop_last());
    }
}

/// A walk ends only at the step cap, without budget, at a target that stops it, or where the vault
/// engine, asked for what comes behind the last skipped target, has no target out of recovery.
pub proof fn law_walk_ends_for_a_reason<V: VaultInterface>(
    trail: Trail<V>,
    context: WalkContext<V::CollateralId, V::AccountId>,
    budget: u128,
    first_target: (V::AccountId, VaultStatus),
    asset: StableId,
    step_cap: u32,
    before: V,
    after: V,
    steps: Seq<Step>,
)
    requires
        walks(
            trail,
            context,
            OrdinaryResult::start(budget),
            first_target,
            asset,
            step_cap,
            before,
            after,
        ),
        steps_of(trail.snapshots, context.price, budget, steps),
    ensures
        steps.len() <= step_cap,
        unbroken(budget, steps),
        trail.vaults[0] == before,
        trail.vaults.last() == after,
        ({
            ||| steps.len() == step_cap
            ||| cancelled(steps) == budget
            ||| stopped(steps)
            ||| steps.len() == 0 && first_target.1 == VaultStatus::FinalRecovery
            ||| exists|target: Option<(V::AccountId, VaultStatus)>|
                {
                    &&& #[trigger] call_ensures(
                        V::next_redemption_target,
                        (
                            &after,
                            context.collateral_id,
                            context.stable_id,
                            last_skipped(trail.owners, steps),
                        ),
                        target,
                    )
                    &&& target matches Some((_, status)) ==> status == VaultStatus::FinalRecovery
                }
        }),
{
    law_walk_adds_up(trail.snapshots, context.price, budget, steps);
    lemma_trail(trail, context.price, budget, steps);
    if steps.len() > 0 {
        lemma_earlier_steps(trail.snapshots, context.price, budget, steps);
        law_walk_adds_up(trail.snapshots.drop_last(), context.price, budget, steps.drop_last());
    }
}

/// Each target of a walk is one that the vault engine offered, the first the given one and each later
/// one what comes behind the last skipped target before it, none of them in recovery. It was priced
/// at what the engine then projected. A redeemed target was settled for exactly its step's debt, in
/// the paying stablecoin, and collateral; any other left the vaults as they were.
#[verifier::rlimit(40)]
#[verifier::spinoff_prover]
pub proof fn law_walk_settles_its_steps<V: VaultInterface>(
    trail: Trail<V>,
    context: WalkContext<V::CollateralId, V::AccountId>,
    budget: u128,
    first_target: (V::AccountId, VaultStatus),
    asset: StableId,
    steps: Seq<Step>,
    i: int,
)
    requires
        trail.taken(context, OrdinaryResult::start(budget), first_target, asset),
        steps_of(trail.snapshots, context.price, budget, steps),
        steps.len() <= u32::MAX,
        0 <= i < steps.len(),
    ensures
        trail.owners.len() == steps.len(),
        trail.vaults.len() == steps.len() + 1,
        i == 0 ==> trail.owners[i] == first_target.0 && first_target.1 != VaultStatus::FinalRecovery,
        i > 0 ==> exists|status: VaultStatus|
            {
                &&& status != VaultStatus::FinalRecovery
                &&& #[trigger] call_ensures(
                    V::next_redemption_target,
                    (
                        &trail.vaults[i],
                        context.collateral_id,
                        context.stable_id,
                        last_skipped(trail.owners, steps.take(i)),
                    ),
                    Some((trail.owners[i], status)),
                )
            },
        call_ensures(
            V::project_redemption_snapshot,
            (&trail.vaults[i], context.collateral_id, context.stable_id, trail.owners[i]),
            Ok::<Snapshot, DispatchError>(trail.snapshots[i]),
        ),
        steps[i] matches Step::Redeem { debt, collateral } ==> V::settles(
            trail.vaults[i],
            context.collateral_id,
            context.stable_id,
            trail.owners[i],
            context.recipient,
            (RedemptionSettlement {
                debt_payment: (StableCredit { asset, amount: debt }),
                collateral_to_recipient: collateral,
            }),
            Ok(()),
            trail.vaults[i + 1],
        ),
        !(steps[i] is Redeem) ==> trail.vaults[i + 1] == trail.vaults[i],
    decreases steps.len(),
{
    let before = trail.earlier();
    let earlier = steps.drop_last();
    let last = steps.len() - 1;
    lemma_earlier_steps(trail.snapshots, context.price, budget, steps);
    assert(before.taken(context, OrdinaryResult::start(budget), first_target, asset));
    assert(before.owners.len() == last && before.vaults.len() == last + 1);
    assert(steps.take(last) == earlier);
    if i < last {
        law_walk_settles_its_steps(before, context, budget, first_target, asset, earlier, i);
        assert(earlier.take(i) == steps.take(i));
        assert(earlier[i] == steps[i]);
        assert(before.owners[i] == trail.owners[i] && before.snapshots[i] == trail.snapshots[i]);
        assert(before.vaults[i] == trail.vaults[i] && before.vaults[i + 1] == trail.vaults[i + 1]);
        lemma_same_skipped(trail.owners, before.owners, steps.take(i));
    } else {
        lemma_trail(trail, context.price, budget, steps);
        lemma_trail(before, context.price, budget, earlier);
        lemma_same_skipped(trail.owners, before.owners, earlier);
        assert(before.vaults.last() == trail.vaults[last]);
        assert(trail.vaults.last() == trail.vaults[last + 1]);
        assert(trail.owners.last() == trail.owners[last]);
        assert(trail.snapshots.last() == trail.snapshots[last]);
    }
}

/// A quote comes to the sum of its targets' steps up to where it ends: at the step cap, without
/// budget, at a target that stops it, or with the last target. It is truncated exactly where the cap
/// alone ended it. A target that does not project fails it where it is reached.
pub proof fn law_quote_adds_up(
    targets: Seq<Projection>,
    snapshots: Seq<Snapshot>,
    price: FixedU128,
    budget: u128,
    step_cap: u32,
    steps: Seq<Step>,
)
    requires
        snapshots.len() <= targets.len(),
        forall|i: int|
            0 <= i < snapshots.len() ==> #[trigger] targets[i] == Ok::<Snapshot, DispatchError>(
                snapshots[i],
            ),
        steps_of(snapshots, price, budget, steps),
        unbroken(budget, steps),
        steps.len() <= step_cap,
    ensures
        ({
            let quote = quoted(
                targets,
                price,
                step_cap,
                OrdinaryResult { remaining: budget, steps: 0, debt: 0, collateral: 0 },
            );
            let ended = steps.len() == step_cap || cancelled(steps) == budget || stopped(steps)
                || targets.len() == steps.len();
            &&& ended ==> {
                &&& quote matches Ok((result, truncated))
                &&& result.debt == cancelled(steps)
                &&& result.remaining == budget - cancelled(steps)
                &&& result.steps == steps.len()
                &&& paid_out(steps) <= u128::MAX ==> result.collateral == paid_out(steps)
                &&& truncated <==> steps.len() == step_cap && cancelled(steps) < budget && !stopped(
                    steps,
                )
            }
            &&& !ended && targets[steps.len() as int] is Err ==> quote == Err::<
                (OrdinaryResult, bool),
                DispatchError,
            >(targets[steps.len() as int]->Err_0)
        }),
{
    let start = OrdinaryResult::start(budget);
    law_walk_adds_up(snapshots, price, budget, steps);
    if steps.len() > 0 {
        lemma_earlier_steps(snapshots, price, budget, steps);
        law_walk_adds_up(snapshots.drop_last(), price, budget, steps.drop_last());
    }
    let ended = steps.len() == step_cap || cancelled(steps) == budget || stopped(steps)
        || targets.len() == steps.len();
    if ended {
        law_quote_agrees_with_walk(targets, snapshots, price, budget, step_cap);
    } else if targets[steps.len() as int] is Err {
        let count = steps.len() as int;
        lemma_quote_follows_walk(targets, snapshots, price, start, step_cap, count);
        lemma_walk_begins(snapshots, price, start, count);
        assert(snapshots.take(count) == snapshots);
        assert(targets.skip(count)[0] == targets[count]);
    }
}

/// An ordinary quote gives what its targets come to, with the fee on the debt that they cancel, and
/// finds no vault to redeem where they cancel none.
pub proof fn law_ordinary_quote_charges_the_cancelled_debt(
    targets: Seq<Projection>,
    price: FixedU128,
    curve: DynamicFeeCurve,
    budget: u128,
    step_cap: u32,
)
    requires
        curve.well_formed(),
    ensures
        ({
            let quote = ordinary_quote(targets, price, curve, budget, step_cap);
            match quoted(
                targets,
                price,
                step_cap,
                OrdinaryResult { remaining: budget, steps: 0, debt: 0, collateral: 0 },
            ) {
                Err(error) => quote == Err::<RedemptionQuote<u128>, Failure>(
                    Failure::Dispatch(error),
                ),
                Ok((result, truncated)) => {
                    &&& result.debt == 0 ==> quote == Err::<RedemptionQuote<u128>, Failure>(
                        Failure::Pallet(Error::NoRedeemableVault),
                    )
                    &&& result.debt > 0 ==> {
                        &&& quote matches Ok(quote)
                        &&& quote.debt_cancelled == result.debt
                        &&& quote.collateral_out == result.collateral
                        &&& quote.fee == fee_of(curve)(result.debt as int)
                        &&& quote.steps == result.steps
                        &&& quote.truncated == truncated
                    }
                },
            }
        }),
{
    if let Ok((result, truncated)) = quoted(targets, price, step_cap, OrdinaryResult::start(budget)) {
        crate::redemptions::rate_laws::law_redemption_pays_its_rate(curve, result.debt);
    }
}

/// A walk breaks off only at a target that the vault engine offered while there was budget and the
/// step cap was not reached, and only because the vault did not project, which leaves the vaults as
/// the steps so far left them, or refused the settlement that its step was priced at.
#[verifier::spinoff_prover]
pub proof fn law_walk_breaks_off_for_a_reason<V: VaultInterface>(
    trail: Trail<V>,
    context: WalkContext<V::CollateralId, V::AccountId>,
    budget: u128,
    first_target: (V::AccountId, VaultStatus),
    asset: StableId,
    step_cap: u32,
    before: V,
    owner: V::AccountId,
    error: DispatchError,
    after: V,
    steps: Seq<Step>,
)
    requires
        breaks_off(
            trail,
            context,
            OrdinaryResult::start(budget),
            first_target,
            asset,
            step_cap,
            before,
            owner,
            error,
            after,
        ),
        steps_of(trail.snapshots, context.price, budget, steps),
    ensures
        steps.len() < step_cap,
        cancelled(steps) < budget,
        !stopped(steps),
        steps.len() == 0 ==> owner == first_target.0,
        exists|projection: Projection|
            {
                &&& #[trigger] call_ensures(
                    V::project_redemption_snapshot,
                    (&trail.vaults.last(), context.collateral_id, context.stable_id, owner),
                    projection,
                )
                &&& match projection {
                    Err(refused) => error == refused && after == trail.vaults.last(),
                    Ok(snapshot) => match priced_step(
                        snapshot,
                        context.price,
                        (budget - cancelled(steps)) as u128,
                    ) {
                        Step::Redeem { debt, collateral } => V::settles(
                            trail.vaults.last(),
                            context.collateral_id,
                            context.stable_id,
                            owner,
                            context.recipient,
                            (RedemptionSettlement {
                                debt_payment: (StableCredit { asset, amount: debt }),
                                collateral_to_recipient: collateral,
                            }),
                            Err(error),
                            after,
                        ),
                        _ => false,
                    },
                }
            },
{
    law_walk_adds_up(trail.snapshots, context.price, budget, steps);
    if steps.len() > 0 {
        lemma_earlier_steps(trail.snapshots, context.price, budget, steps);
        law_walk_adds_up(trail.snapshots.drop_last(), context.price, budget, steps.drop_last());
    }
}

} // verus!
