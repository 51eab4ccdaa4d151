//! Ordinary redemption: pricing, quoting and the walk over vaults.

use crate::arithmetic::{least, saturated, FixedU128, Rounding, DIV};
use crate::primitives::credit::{StableCredit, StableId};
use crate::primitives::error::DispatchError;
use crate::primitives::math::{
    collateral_for_value_floor, collateralization_ratio, collateralization_ratio_spec,
    mul_div_spec, CollateralRatio,
};
use crate::primitives::vault::{DebtCollateral, VaultStatus};
use crate::primitives::vault_interface::{RedemptionSettlement, VaultInterface};
use crate::redemptions::error::{Error, Failure};
use crate::redemptions::fees::{bought, max_debt_for_budget, rounded_fee, DynamicFeeCurve};
use crate::redemptions::recovery::Snapshot;
use crate::redemptions::types::{Millis, RedemptionQuote, RedemptionState};
use vstd::prelude::*;

verus! {

/// Fee inputs of an ordinary redemption.
#[derive(Clone, Copy, PartialEq, Eq, Debug)]
pub struct FeeInputs {
    /// Stored fee state of the stablecoin.
    pub state: RedemptionState,
    /// Time of the redemption.
    pub now: Millis,
    /// Curve that prices the redemption.
    pub curve: DynamicFeeCurve,
}

/// What a priced target contributes to an ordinary redemption.
#[derive(Clone, Copy, PartialEq, Eq, Structural, Debug)]
pub enum Step {
    /// The target settles `debt` for `collateral`.
    Redeem {
        /// Debt to cancel.
        debt: u128,
        /// Collateral to pay out.
        collateral: u128,
    },
    /// The target has nothing to redeem; a later one may.
    Skip,
    /// Neither this nor a later target can be redeemed.
    Stop,
}

/// Progress of an ordinary redemption.
#[derive(Clone, Copy, PartialEq, Eq, Structural, Debug)]
pub struct OrdinaryResult {
    /// Budget that is left.
    pub remaining: u128,
    /// Targets visited.
    pub steps: u32,
    /// Debt cancelled.
    pub debt: u128,
    /// Collateral paid out.
    pub collateral: u128,
}

impl OrdinaryResult {
    /// A redemption of `budget` before its first step.
    pub open spec fn start(budget: u128) -> OrdinaryResult {
        OrdinaryResult { remaining: budget, steps: 0, debt: 0, collateral: 0 }
    }

    /// The redemption after one more visited target.
    pub open spec fn after(self, step: Step) -> OrdinaryResult {
        match step {
            Step::Redeem { debt, collateral } => OrdinaryResult {
                remaining: (self.remaining - debt) as u128,
                steps: (self.steps + 1) as u32,
                debt: (self.debt + debt) as u128,
                collateral: saturated(self.collateral + collateral) as u128,
            },
            _ => OrdinaryResult { steps: (self.steps + 1) as u32, ..self },
        }
    }

    /// A redemption of `budget` before its first step.
    fn new(budget: u128) -> (result: OrdinaryResult)
        ensures
            result == OrdinaryResult::start(budget),
    {
        OrdinaryResult { remaining: budget, steps: 0, debt: 0, collateral: 0 }
    }

    /// Counts one more visited target.
    fn advance(&mut self, step: Step)
        requires
            old(self).steps < u32::MAX,
            step matches Step::Redeem { debt, .. } ==> debt <= old(self).remaining && old(
                self,
            ).debt + debt <= u128::MAX,
        ensures
            *final(self) == old(self).after(step),
    {
        self.steps = self.steps + 1;
        match step {
            Step::Redeem { debt, collateral } => {
                self.remaining = self.remaining - debt;
                self.debt = self.debt + debt;
                self.collateral = self.collateral.saturating_add(collateral);
            },
            _ => {},
        }
    }
}

/// Whether a target's collateral is worth at least its debt.
pub open spec fn redeemable(snapshot: Snapshot, price: FixedU128) -> bool {
    collateralization_ratio_spec(
        DebtCollateral { debt: snapshot.debt, collateral: snapshot.collateral },
        price,
    ) matches Ok(CollateralRatio::Ratio(ratio)) && ratio.inner >= DIV
}

/// What a target contributes to an ordinary redemption with `budget` left.
///
/// A target that is not worth its debt is skipped, but for a dormant one, which blocks the queue
/// behind it, as a recovery head does. A redeemable one cancels debt at face value.
pub open spec fn priced_step(snapshot: Snapshot, price: FixedU128, budget: u128) -> Step {
    if snapshot.status == VaultStatus::FinalRecovery {
        Step::Stop
    } else if !redeemable(snapshot, price) {
        if snapshot.status == VaultStatus::Dormant {
            Step::Stop
        } else {
            Step::Skip
        }
    } else if snapshot.sized(budget as int) == 0 {
        Step::Stop
    } else {
        match mul_div_spec::<u128>(
            snapshot.sized(budget as int),
            DIV as int,
            price.inner as int,
            Rounding::Down,
        ) {
            Some(face) => Step::Redeem {
                debt: snapshot.sized(budget as int) as u128,
                collateral: least(face as int, snapshot.collateral as int) as u128,
            },
            None => Step::Stop,
        }
    }
}

/// Prices one target of an ordinary redemption.
pub fn price_ordinary_step(snapshot: &Snapshot, price: FixedU128, budget: u128) -> (step: Step)
    ensures
        step == priced_step(*snapshot, price, budget),
{
    if snapshot.status.is_final_recovery() {
        return Step::Stop;
    }
    let redeemable = match collateralization_ratio(&snapshot.position(), price) {
        Ok(CollateralRatio::Ratio(ratio)) => ratio.inner >= DIV,
        // Nothing to redeem without debt, and an overflowing ratio is not guessed at.
        Ok(CollateralRatio::DebtFree) => false,
        Err(_) => false,
    };
    if !redeemable {
        return if snapshot.status.is_dormant() {
            Step::Stop
        } else {
            Step::Skip
        };
    }
    let debt = snapshot.size_within(budget);
    if debt == 0 {
        return Step::Stop;
    }
    // A failed face-value conversion cannot price this or any later target.
    match collateral_for_value_floor(debt, price) {
        Some(face) => {
            let collateral = if face <= snapshot.collateral {
                face
            } else {
                snapshot.collateral
            };
            Step::Redeem { debt, collateral }
        },
        None => Step::Stop,
    }
}

/// A redeemed step stays within the budget and the vault's payoff and collateral, and cancels some
/// debt.
pub proof fn law_ordinary_step_is_bounded(snapshot: Snapshot, price: FixedU128, budget: u128)
    ensures
        priced_step(snapshot, price, budget) matches Step::Redeem { debt, collateral } ==> {
            &&& 0 < debt <= budget
            &&& debt <= snapshot.payoff()
            &&& collateral <= snapshot.collateral
        },
{
    crate::primitives::vault_interface::law_sized_payment_is_the_largest_within_the_budget(
        snapshot,
        budget as int,
        0,
    );
}

/// The redemption after visiting `snapshots` in order.
pub open spec fn walked(
    snapshots: Seq<Snapshot>,
    price: FixedU128,
    start: OrdinaryResult,
) -> OrdinaryResult
    decreases snapshots.len(),
{
    if snapshots.len() == 0 {
        start
    } else {
        let before = walked(snapshots.drop_last(), price, start);
        before.after(priced_step(snapshots.last(), price, before.remaining))
    }
}

/// Whether a walk may visit `snapshots` in order: there is budget left before each, and none but
/// the last stops the walk.
pub open spec fn walkable(
    snapshots: Seq<Snapshot>,
    price: FixedU128,
    start: OrdinaryResult,
) -> bool
    decreases snapshots.len(),
{
    if snapshots.len() == 0 {
        true
    } else {
        let earlier = snapshots.drop_last();
        &&& walkable(earlier, price, start)
        &&& walked(earlier, price, start).remaining > 0
        &&& earlier.len() > 0 ==> priced_step(
            earlier.last(),
            price,
            walked(earlier.drop_last(), price, start).remaining,
        ) != Step::Stop
    }
}

/// Fee that the curve charges for each debt.
pub open spec fn fee_of(curve: DynamicFeeCurve) -> spec_fn(int) -> int {
    |debt: int| rounded_fee(debt, curve.rate(debt), u128::MAX as int)
}

/// Calculates the debt that `stable_budget` buys on a redemption's curve, including the fee.
///
/// Only the budget limits the walk. The aggregate debt in the curve can exclude a terminal charge
/// that a full payoff cancels.
pub fn ordinary_debt_budget(fee_inputs: &FeeInputs, stable_budget: u128) -> (debt: u128)
    ensures
        debt == bought(fee_of(fee_inputs.curve), stable_budget as int),
        debt <= stable_budget,
        debt + fee_of(fee_inputs.curve)(debt as int) <= stable_budget,
{
    let curve = fee_inputs.curve;
    let fee_for = |debt: u128| -> (fee: u128)
        ensures
            fee == fee_of(curve)(debt as int),
        { curve.fee(debt) };
    let debt = max_debt_for_budget(stable_budget, fee_for);
    proof {
        let fee = fee_of(curve);
        assert(crate::redemptions::fees::prices_by(fee_for, fee));
        assert(debt == bought(fee, stable_budget as int));
        crate::redemptions::fee_laws::law_bought_debt_fits_and_one_more_does_not(
            fee,
            stable_budget as int,
        );
        crate::redemptions::fee_laws::law_redeeming_nothing_costs_and_moves_nothing(
            curve,
            u128::MAX as int,
        );
    }
    debt
}

/// Projection of one target of a quote.
pub type Projection = Result<Snapshot, DispatchError>;

/// Folds a quote over projected targets, from the progress `so_far`.
///
/// The quote ends when the budget is spent, when the step cap is reached while budget remains
/// (which truncates it), when no target is left, or at a target that stops it. A failed projection
/// fails the quote where it is reached.
pub open spec fn quoted(
    targets: Seq<Projection>,
    price: FixedU128,
    step_cap: u32,
    so_far: OrdinaryResult,
) -> Result<(OrdinaryResult, bool), DispatchError>
    decreases targets.len(),
{
    if so_far.remaining == 0 {
        Ok((so_far, false))
    } else if so_far.steps >= step_cap {
        Ok((so_far, true))
    } else if targets.len() == 0 {
        Ok((so_far, false))
    } else {
        match targets[0] {
            Err(error) => Err(error),
            Ok(snapshot) => {
                let step = priced_step(snapshot, price, so_far.remaining);
                if step == Step::Stop {
                    Ok((so_far.after(step), false))
                } else {
                    quoted(targets.skip(1), price, step_cap, so_far.after(step))
                }
            },
        }
    }
}

/// The quote of an ordinary redemption of `debt_budget` over projected targets.
pub open spec fn ordinary_quote(
    targets: Seq<Projection>,
    price: FixedU128,
    curve: DynamicFeeCurve,
    debt_budget: u128,
    step_cap: u32,
) -> Result<RedemptionQuote<u128>, Failure> {
    match quoted(targets, price, step_cap, OrdinaryResult::start(debt_budget)) {
        Err(error) => Err(Failure::Dispatch(error)),
        Ok((result, truncated)) => if result.debt == 0 {
            Err(Failure::Pallet(Error::NoRedeemableVault))
        } else {
            Ok(
                RedemptionQuote {
                    debt_cancelled: result.debt,
                    collateral_out: result.collateral,
                    fee: fee_of(curve)(result.debt as int) as u128,
                    steps: result.steps,
                    truncated,
                },
            )
        },
    }
}

/// Builds the quote of an ordinary redemption of `debt_budget` over projected targets.
pub fn quote_ordinary(
    targets: &Vec<Projection>,
    price: FixedU128,
    fee_inputs: &FeeInputs,
    debt_budget: u128,
    step_cap: u32,
) -> (quote: Result<RedemptionQuote<u128>, Failure>)
    ensures
        quote == ordinary_quote(targets@, price, fee_inputs.curve, debt_budget, step_cap),
{
    let mut result = OrdinaryResult::new(debt_budget);
    let mut truncated = false;
    let mut next: usize = 0;
    let ghost fold = quoted(targets@, price, step_cap, OrdinaryResult::start(debt_budget));
    assert(targets@.skip(0) == targets@);
    while result.remaining != 0
        invariant_except_break
            fold == quoted(targets@, price, step_cap, OrdinaryResult::start(debt_budget)),
            next <= targets.len(),
            !truncated,
            result.remaining + result.debt == debt_budget,
            fold == quoted(targets@.skip(next as int), price, step_cap, result),
        ensures
            fold == Ok::<(OrdinaryResult, bool), DispatchError>((result, truncated)),
        decreases targets.len() - next,
    {
        if result.steps >= step_cap {
            truncated = true;
            break;
        }
        if next >= targets.len() {
            break;
        }
        let snapshot = match &targets[next] {
            Ok(snapshot) => *snapshot,
            Err(error) => {
                return Err(Failure::Dispatch(*error));
            },
        };
        let step = price_ordinary_step(&snapshot, price, result.remaining);
        proof {
            law_ordinary_step_is_bounded(snapshot, price, result.remaining);
            assert(targets@.skip(next as int).skip(1) == targets@.skip(next + 1));
        }
        result.advance(step);
        next = next + 1;
        if step == Step::Stop {
            break;
        }
    }
    if result.debt == 0 {
        return Err(Failure::Pallet(Error::NoRedeemableVault));
    }
    let fee = fee_inputs.curve.fee(result.debt);
    Ok(
        RedemptionQuote {
            debt_cancelled: result.debt,
            collateral_out: result.collateral,
            fee,
            steps: result.steps,
            truncated,
        },
    )
}

/// What an ordinary redemption acts on.
#[derive(Clone, Copy, PartialEq, Eq, Debug)]
pub struct WalkContext<CollateralId, AccountId> {
    /// Account that pays.
    pub redeemer: AccountId,
    /// Collateral of the market.
    pub collateral_id: CollateralId,
    /// Stablecoin of the market.
    pub stable_id: StableId,
    /// Account that receives collateral.
    pub recipient: AccountId,
    /// Value of one collateral unit.
    pub price: FixedU128,
}

/// Accepts `credit` only if it carries exactly `amount`: vaults and the fee handler take whatever
/// a credit carries, so any other size would settle an unpriced amount.
pub fn exact_credit(credit: StableCredit, amount: u128) -> (exact: Result<
    StableCredit,
    DispatchError,
>)
    ensures
        exact == (if credit.amount == amount {
            Ok(credit)
        } else {
            Err(DispatchError::Corruption)
        }),
{
    if credit.peek() == amount {
        Ok(credit)
    } else {
        Err(DispatchError::Corruption)
    }
}

/// The settlement of a step that pays `debt` of a stablecoin for `collateral`.
pub open spec fn step_settlement(
    asset: StableId,
    debt: u128,
    collateral: u128,
) -> RedemptionSettlement<StableCredit, u128> {
    RedemptionSettlement {
        debt_payment: StableCredit { asset, amount: debt },
        collateral_to_recipient: collateral,
    }
}

/// Whether a target whose price is `step` takes the vaults from `before` to `after`: a redemption by
/// its settlement, anything else not at all.
pub open spec fn steps_to<V: VaultInterface>(
    before: V,
    context: WalkContext<V::CollateralId, V::AccountId>,
    owner: V::AccountId,
    asset: StableId,
    step: Step,
    after: V,
) -> bool {
    match step {
        Step::Redeem { debt, collateral } => V::settles(
            before,
            context.collateral_id,
            context.stable_id,
            owner,
            context.recipient,
            step_settlement(asset, debt, collateral),
            Ok(()),
            after,
        ),
        _ => after == before,
    }
}

/// Whether visiting the owner's vault with `budget` left fails with `error`: the vault does not
/// project, or refuses the settlement that it was priced at.
pub open spec fn step_fails<V: VaultInterface>(
    before: V,
    context: WalkContext<V::CollateralId, V::AccountId>,
    owner: V::AccountId,
    budget: u128,
    asset: StableId,
    error: DispatchError,
    after: V,
) -> bool {
    exists|projection: Projection|
        {
            &&& #[trigger] call_ensures(
                V::project_redemption_snapshot,
                (&before, context.collateral_id, context.stable_id, owner),
                projection,
            )
            &&& match projection {
                Err(refused) => error == refused && after == before,
                Ok(snapshot) => match priced_step(snapshot, context.price, budget) {
                    Step::Redeem { debt, collateral } => V::settles(
                        before,
                        context.collateral_id,
                        context.stable_id,
                        owner,
                        context.recipient,
                        step_settlement(asset, debt, collateral),
                        Err(error),
                        after,
                    ),
                    _ => false,
                },
            }
        }
}

/// Prices one target from its projection, carves its debt out of `payment`, and applies the
/// settlement. `Skip` and `Stop` settle nothing.
pub fn apply_ordinary_step<V: VaultInterface>(
    vaults: &mut V,
    context: &WalkContext<V::CollateralId, V::AccountId>,
    owner: V::AccountId,
    budget: u128,
    payment: &mut StableCredit,
) -> (applied: Result<(Step, Ghost<Snapshot>), DispatchError>)
    ensures
        final(payment).asset == old(payment).asset,
        exists|projection: Projection|
            {
                &&& #[trigger] call_ensures(
                    V::project_redemption_snapshot,
                    (&*old(vaults), context.collateral_id, context.stable_id, owner),
                    projection,
                )
                &&& match projection {
                    Err(error) => {
                        &&& applied is Err && applied->Err_0 == error
                        &&& *final(vaults) == *old(vaults)
                        &&& *final(payment) == *old(payment)
                    },
                    Ok(snapshot) => match (priced_step(snapshot, context.price, budget), applied) {
                        (step, Ok((applied, at))) => {
                            &&& applied == step && at@ == snapshot
                            &&& steps_to(
                                *old(vaults),
                                *context,
                                owner,
                                old(payment).asset,
                                step,
                                *final(vaults),
                            )
                            &&& final(payment).amount == old(payment).amount - (match step {
                                Step::Redeem { debt, .. } => debt,
                                _ => 0,
                            })
                        },
                        (Step::Redeem { debt, collateral }, Err(error)) => if debt > old(
                            payment,
                        ).amount {
                            error == DispatchError::Corruption && *final(vaults) == *old(vaults)
                        } else {
                            V::settles(
                                *old(vaults),
                                context.collateral_id,
                                context.stable_id,
                                owner,
                                context.recipient,
                                step_settlement(old(payment).asset, debt, collateral),
                                Err(error),
                                *final(vaults),
                            )
                        },
                        (_, Err(_)) => false,
                    },
                }
            },
        applied is Err ==> {
            ||| step_fails(
                *old(vaults),
                *context,
                owner,
                budget,
                old(payment).asset,
                applied->Err_0,
                *final(vaults),
            )
            ||| {
                &&& budget > old(payment).amount
                &&& applied->Err_0 == DispatchError::Corruption
                &&& *final(vaults) == *old(vaults)
            }
        },
{
    let project = V::project_redemption_snapshot;
    let projection = project(&*vaults, context.collateral_id, context.stable_id, owner);
    assert(call_ensures(
        V::project_redemption_snapshot,
        (&*vaults, context.collateral_id, context.stable_id, owner),
        projection,
    ));
    let snapshot = match projection {
        Ok(snapshot) => snapshot,
        Err(error) => {
            return Err(error);
        },
    };
    let step = price_ordinary_step(&snapshot, context.price, budget);
    proof {
        law_ordinary_step_is_bounded(snapshot, context.price, budget);
    }
    match step {
        Step::Redeem { debt, collateral } => {
            let debt_payment = match exact_credit(payment.extract(debt), debt) {
                Ok(debt_payment) => debt_payment,
                Err(error) => {
                    return Err(error);
                },
            };
            let settlement = RedemptionSettlement {
                debt_payment,
                collateral_to_recipient: collateral,
            };
            assert(settlement == step_settlement(old(payment).asset, debt, collateral));
            let settled = vaults.redeem_step(
                context.collateral_id,
                context.stable_id,
                owner,
                context.recipient,
                settlement,
            );
            assert(settled is Ok ==> settled->Ok_0 == ());
            match settled {
                Ok(_) => Ok((step, Ghost(snapshot))),
                Err(error) => Err(error),
            }
        },
        _ => Ok((step, Ghost(snapshot))),
    }
}

/// Targets that a walk visited, in order.
pub ghost struct Trail<V: VaultInterface> {
    /// Their owners.
    pub owners: Seq<V::AccountId>,
    /// Their snapshots when they were visited.
    pub snapshots: Seq<Snapshot>,
    /// The vaults before the walk and after each target.
    pub vaults: Seq<V>,
}

impl<V: VaultInterface> Trail<V> {
    /// No targets.
    pub open spec fn empty(vaults: V) -> Trail<V> {
        Trail { owners: Seq::empty(), snapshots: Seq::empty(), vaults: seq![vaults] }
    }

    /// The trail before its last target.
    pub open spec fn earlier(self) -> Trail<V> {
        Trail {
            owners: self.owners.drop_last(),
            snapshots: self.snapshots.drop_last(),
            vaults: self.vaults.drop_last(),
        }
    }

    /// The trail with one more target.
    pub open spec fn later(self, owner: V::AccountId, snapshot: Snapshot, vaults: V) -> Trail<V> {
        Trail {
            owners: self.owners.push(owner),
            snapshots: self.snapshots.push(snapshot),
            vaults: self.vaults.push(vaults),
        }
    }

    /// How the last target was priced.
    pub open spec fn last_step(self, price: FixedU128, start: OrdinaryResult) -> Step {
        priced_step(
            self.snapshots.last(),
            price,
            walked(self.snapshots.drop_last(), price, start).remaining,
        )
    }

    /// The owner behind whom the rate-index walk resumes: that of the last skipped target.
    pub open spec fn cursor(self, price: FixedU128, start: OrdinaryResult) -> Option<V::AccountId>
        decreases self.snapshots.len(),
    {
        if self.snapshots.len() == 0 {
            None
        } else if self.last_step(price, start) == Step::Skip {
            Some(self.owners.last())
        } else {
            self.earlier().cursor(price, start)
        }
    }

    /// Whether the vault engine, as the trail so far left it, offers `owner` as the next target of
    /// the walk: the first target first, then what the queue holds behind the last skipped one.
    pub open spec fn offers(
        self,
        context: WalkContext<V::CollateralId, V::AccountId>,
        start: OrdinaryResult,
        first_target: (V::AccountId, VaultStatus),
        owner: V::AccountId,
    ) -> bool {
        if self.snapshots.len() == 0 {
            owner == first_target.0 && first_target.1 != VaultStatus::FinalRecovery
        } else {
            exists|status: VaultStatus|
                {
                    &&& status != VaultStatus::FinalRecovery
                    &&& #[trigger] call_ensures(
                        V::next_redemption_target,
                        (
                            &self.vaults.last(),
                            context.collateral_id,
                            context.stable_id,
                            self.cursor(context.price, start),
                        ),
                        Some((owner, status)),
                    )
                }
        }
    }

    /// Whether a walk that pays in `asset` took the trail: each target was offered, projected, and
    /// settled as it was priced.
    pub open spec fn taken(
        self,
        context: WalkContext<V::CollateralId, V::AccountId>,
        start: OrdinaryResult,
        first_target: (V::AccountId, VaultStatus),
        asset: StableId,
    ) -> bool
        decreases self.snapshots.len(),
    {
        &&& self.owners.len() == self.snapshots.len()
        &&& self.vaults.len() == self.snapshots.len() + 1
        &&& self.snapshots.len() > 0 ==> {
            let before = self.earlier();
            &&& before.taken(context, start, first_target, asset)
            &&& before.offers(context, start, first_target, self.owners.last())
            &&& call_ensures(
                V::project_redemption_snapshot,
                (
                    &before.vaults.last(),
                    context.collateral_id,
                    context.stable_id,
                    self.owners.last(),
                ),
                Ok::<Snapshot, DispatchError>(self.snapshots.last()),
            )
            &&& steps_to(
                before.vaults.last(),
                context,
                self.owners.last(),
                asset,
                self.last_step(context.price, start),
                self.vaults.last(),
            )
        }
    }
}

/// Whether the last of the visited targets stopped the walk.
pub open spec fn stops(snapshots: Seq<Snapshot>, price: FixedU128, start: OrdinaryResult) -> bool {
    snapshots.len() > 0 && priced_step(
        snapshots.last(),
        price,
        walked(snapshots.drop_last(), price, start).remaining,
    ) == Step::Stop
}

/// Whether a walk that visited `snapshots` had no reason to end before `step_cap`: it has budget and
/// steps left, and its last target did not stop it.
pub open spec fn goes_on(
    snapshots: Seq<Snapshot>,
    price: FixedU128,
    start: OrdinaryResult,
    step_cap: u32,
) -> bool {
    &&& snapshots.len() < step_cap
    &&& walked(snapshots, price, start).remaining > 0
    &&& !stops(snapshots, price, start)
}

/// Whether a walk along `trail` had no reason to end before `step_cap`.
pub open spec fn unfinished<V: VaultInterface>(
    trail: Trail<V>,
    price: FixedU128,
    start: OrdinaryResult,
    step_cap: u32,
) -> bool {
    goes_on(trail.snapshots, price, start, step_cap)
}

/// One more visited target.
proof fn lemma_walk_grows<V: VaultInterface>(
    trail: Trail<V>,
    owner: V::AccountId,
    snapshot: Snapshot,
    vaults: V,
    price: FixedU128,
    start: OrdinaryResult,
)
    ensures
        ({
            let grown = trail.later(owner, snapshot, vaults);
            let before = walked(trail.snapshots, price, start);
            let step = priced_step(snapshot, price, before.remaining);
            &&& grown.earlier() == trail
            &&& grown.last_step(price, start) == step
            &&& walked(grown.snapshots, price, start) == before.after(step)
            &&& grown.cursor(price, start) == (if step == Step::Skip {
                Some(owner)
            } else {
                trail.cursor(price, start)
            })
        }),
{
    assert(trail.snapshots.push(snapshot).drop_last() == trail.snapshots);
    assert(trail.owners.push(owner).drop_last() == trail.owners);
    assert(trail.vaults.push(vaults).drop_last() == trail.vaults);
}

/// Whether the walk ended with the queue: what the vault engine offers behind the last skipped
/// target, if anything, is not an ordinary target.
pub open spec fn exhausted<V: VaultInterface>(
    trail: Trail<V>,
    context: WalkContext<V::CollateralId, V::AccountId>,
    start: OrdinaryResult,
    first_target: (V::AccountId, VaultStatus),
) -> bool {
    if trail.snapshots.len() == 0 {
        first_target.1 == VaultStatus::FinalRecovery
    } else {
        exists|target: Option<(V::AccountId, VaultStatus)>|
            {
                &&& #[trigger] call_ensures(
                    V::next_redemption_target,
                    (
                        &trail.vaults.last(),
                        context.collateral_id,
                        context.stable_id,
                        trail.cursor(context.price, start),
                    ),
                    target,
                )
                &&& target matches Some((_, status)) ==> status == VaultStatus::FinalRecovery
            }
    }
}

/// Whether `trail` is a whole walk that takes the vaults from `before` to `after`: it goes no
/// further than `step_cap`, and ends before that only without budget, at a barrier, or with the
/// queue.
pub open spec fn walks<V: VaultInterface>(
    trail: Trail<V>,
    context: WalkContext<V::CollateralId, V::AccountId>,
    start: OrdinaryResult,
    first_target: (V::AccountId, VaultStatus),
    asset: StableId,
    step_cap: u32,
    before: V,
    after: V,
) -> bool {
    &&& trail.taken(context, start, first_target, asset)
    &&& walkable(trail.snapshots, context.price, start)
    &&& trail.vaults[0] == before
    &&& trail.vaults.last() == after
    &&& trail.snapshots.len() <= step_cap
    &&& unfinished(trail, context.price, start, step_cap) ==> exhausted(
        trail,
        context,
        start,
        first_target,
    )
}

/// Whether a walk that took `trail` from `before` fails with `error` at the next target, `owner`.
pub open spec fn breaks_off<V: VaultInterface>(
    trail: Trail<V>,
    context: WalkContext<V::CollateralId, V::AccountId>,
    start: OrdinaryResult,
    first_target: (V::AccountId, VaultStatus),
    asset: StableId,
    step_cap: u32,
    before: V,
    owner: V::AccountId,
    error: DispatchError,
    after: V,
) -> bool {
    &&& trail.taken(context, start, first_target, asset)
    &&& walkable(trail.snapshots, context.price, start)
    &&& trail.vaults[0] == before
    &&& unfinished(trail, context.price, start, step_cap)
    &&& trail.offers(context, start, first_target, owner)
    &&& step_fails(
        trail.vaults.last(),
        context,
        owner,
        walked(trail.snapshots, context.price, start).remaining,
        asset,
        error,
        after,
    )
}

/// Executes the ordinary queue that the vault engine owns. Recovery is handled before this walk
/// starts. Each settled step carves its debt out of `payment`.
///
/// Returns the progress, with the trail of targets that were visited. The walk ends early only
/// where the queue, resumed behind the last skipped target, has no further ordinary target.
pub fn execute_ordinary_walk<V: VaultInterface>(
    vaults: &mut V,
    context: &WalkContext<V::CollateralId, V::AccountId>,
    step_cap: u32,
    debt_budget: u128,
    first_target: (V::AccountId, VaultStatus),
    payment: &mut StableCredit,
) -> (walk: Result<(OrdinaryResult, Ghost<Trail<V>>), DispatchError>)
    ensures
        final(payment).asset == old(payment).asset,
        walk matches Ok((result, trail)) ==> {
            let start = OrdinaryResult::start(debt_budget);
            &&& walks(
                trail@,
                *context,
                start,
                first_target,
                old(payment).asset,
                step_cap,
                *old(vaults),
                *final(vaults),
            )
            &&& result == walked(trail@.snapshots, context.price, start)
            &&& result.steps == trail@.snapshots.len()
            &&& result.remaining + result.debt == debt_budget
            &&& final(payment).amount == old(payment).amount - result.debt
        },
        walk matches Err(error) ==> (debt_budget > old(payment).amount && error
            == DispatchError::Corruption) || exists|trail: Trail<V>, owner: V::AccountId|
            breaks_off(
                trail,
                *context,
                OrdinaryResult::start(debt_budget),
                first_target,
                old(payment).asset,
                step_cap,
                *old(vaults),
                owner,
                error,
                *final(vaults),
            ),
{
    let mut result = OrdinaryResult::new(debt_budget);
    let mut cursor: Option<V::AccountId> = None;
    let mut next: Option<(V::AccountId, VaultStatus)> = Some(first_target);
    let ghost price = context.price;
    let ghost start = OrdinaryResult::start(debt_budget);
    let ghost mut trail: Trail<V> = Trail::empty(*vaults);
    while result.steps < step_cap
        invariant_except_break
            trail.snapshots.len() > 0 ==> trail.last_step(price, start) != Step::Stop,
        invariant
            price == context.price,
            start == OrdinaryResult::start(debt_budget),
            result == walked(trail.snapshots, price, start),
            walkable(trail.snapshots, price, start),
            trail.taken(*context, start, first_target, old(payment).asset),
            trail.vaults.len() == trail.snapshots.len() + 1,
            trail.vaults[0] == *old(vaults),
            trail.vaults.last() == *vaults,
            trail.snapshots.len() == result.steps <= step_cap,
            trail.snapshots.len() == 0 ==> next == Some(first_target),
            trail.snapshots.len() > 0 ==> next is None,
            cursor == trail.cursor(price, start),
            result.remaining + result.debt == debt_budget,
            payment.asset == old(payment).asset,
            payment.amount == old(payment).amount - result.debt,
        ensures
            unfinished(trail, price, start, step_cap) ==> exhausted(
                trail,
                *context,
                start,
                first_target,
            ),
        decreases step_cap - result.steps,
    {
        let target = match next {
            Some(target) => Some(target),
            None => {
                let next_target = V::next_redemption_target;
                next_target(&*vaults, context.collateral_id, context.stable_id, cursor)
            },
        };
        let (owner, status) = match target {
            Some(target) => target,
            None => {
                break;
            },
        };
        if result.remaining == 0 || status.is_final_recovery() {
            break;
        }
        assert(trail.offers(*context, start, first_target, owner));
        next = None;
        let (step, Ghost(snapshot)) = match apply_ordinary_step(
            vaults,
            context,
            owner,
            result.remaining,
            payment,
        ) {
            Ok(applied) => applied,
            Err(error) => {
                assert((debt_budget > old(payment).amount && error == DispatchError::Corruption)
                    || breaks_off(
                    trail,
                    *context,
                    OrdinaryResult::start(debt_budget),
                    first_target,
                    old(payment).asset,
                    step_cap,
                    *old(vaults),
                    owner,
                    error,
                    *final(vaults),
                ));
                return Err(error);
            },
        };
        proof {
            law_ordinary_step_is_bounded(snapshot, price, result.remaining);
            lemma_walk_grows(trail, owner, snapshot, *vaults, price, start);
            trail = trail.later(owner, snapshot, *vaults);
        }
        result.advance(step);
        match step {
            Step::Stop => {
                break;
            },
            Step::Skip => {
                cursor = Some(owner);
            },
            Step::Redeem { .. } => {},
        }
    }
    Ok((result, Ghost(trail)))
}

/// What holds of a walk holds of its beginning.
pub(crate) proof fn lemma_walk_begins(
    snapshots: Seq<Snapshot>,
    price: FixedU128,
    start: OrdinaryResult,
    visited: int,
)
    requires
        walkable(snapshots, price, start),
        0 <= visited <= snapshots.len() <= u32::MAX,
        start.steps == 0,
    ensures
        walkable(snapshots.take(visited), price, start),
        walked(snapshots.take(visited), price, start).steps == visited,
        visited < snapshots.len() ==> {
            let before = walked(snapshots.take(visited), price, start);
            let step = priced_step(snapshots[visited], price, before.remaining);
            &&& before.remaining > 0
            &&& walked(snapshots.take(visited + 1), price, start) == before.after(step)
            &&& visited + 1 < snapshots.len() ==> step != Step::Stop
        },
    decreases snapshots.len(),
{
    let earlier = snapshots.drop_last();
    if visited < snapshots.len() {
        assert(earlier.take(visited) == snapshots.take(visited));
        lemma_walk_begins(earlier, price, start, visited);
        assert(snapshots.take(visited + 1).drop_last() == snapshots.take(visited));
        assert(snapshots.take(visited + 1).last() == snapshots[visited]);
        if visited + 1 < snapshots.len() {
            if visited + 1 == earlier.len() {
                assert(earlier.take(visited + 1) == earlier);
                assert(earlier.drop_last() == snapshots.take(visited));
                assert(earlier.last() == snapshots[visited]);
            } else {
                assert(earlier.take(visited + 1) == snapshots.take(visited + 1));
            }
        } else {
            assert(snapshots.take(visited) == earlier);
        }
    } else {
        assert(snapshots.take(visited) == snapshots);
        if snapshots.len() > 0 {
            lemma_walk_begins(earlier, price, start, earlier.len() as int);
            assert(earlier.take(earlier.len() as int) == earlier);
        }
    }
}

/// Whether the list of projected targets begins with targets that project to `snapshots`.
pub open spec fn begins_with(targets: Seq<Projection>, snapshots: Seq<Snapshot>) -> bool {
    &&& snapshots.len() <= targets.len()
    &&& forall|i: int|
        0 <= i < snapshots.len() ==> #[trigger] targets[i] == Ok::<Snapshot, DispatchError>(
            snapshots[i],
        )
}

/// A quote takes a target that does not stop it into its progress.
proof fn lemma_quote_step(
    targets: Seq<Projection>,
    snapshot: Snapshot,
    price: FixedU128,
    step_cap: u32,
    so_far: OrdinaryResult,
)
    requires
        targets.len() > 0,
        targets[0] == Ok::<Snapshot, DispatchError>(snapshot),
        so_far.remaining > 0,
        so_far.steps < step_cap,
        priced_step(snapshot, price, so_far.remaining) != Step::Stop,
    ensures
        quoted(targets, price, step_cap, so_far) == quoted(
            targets.skip(1),
            price,
            step_cap,
            so_far.after(priced_step(snapshot, price, so_far.remaining)),
        ),
{
}

/// A quote over the targets that a walk visits, folded up to `visited` of them.
#[verifier::spinoff_prover]
pub(crate) proof fn lemma_quote_follows_walk(
    targets: Seq<Projection>,
    snapshots: Seq<Snapshot>,
    price: FixedU128,
    start: OrdinaryResult,
    step_cap: u32,
    visited: int,
)
    requires
        begins_with(targets, snapshots),
        walkable(snapshots, price, start),
        0 <= visited <= snapshots.len() <= step_cap,
        visited < snapshots.len() || snapshots.len() == 0 || priced_step(
            snapshots.last(),
            price,
            walked(snapshots.drop_last(), price, start).remaining,
        ) != Step::Stop,
        start.steps == 0,
    ensures
        quoted(targets, price, step_cap, start) == quoted(
            targets.skip(visited),
            price,
            step_cap,
            walked(snapshots.take(visited), price, start),
        ),
    decreases visited,
{
    if visited == 0 {
        assert(targets.skip(0) == targets);
        assert(snapshots.take(0) == Seq::<Snapshot>::empty());
        assert(walked(snapshots.take(0), price, start) == start);
    } else {
        let last = visited - 1;
        let before = walked(snapshots.take(last), price, start);
        lemma_walk_begins(snapshots, price, start, last);
        lemma_quote_follows_walk(targets, snapshots, price, start, step_cap, last);
        assert(targets.skip(last)[0] == targets[last]);
        if visited == snapshots.len() {
            assert(snapshots.take(last) == snapshots.drop_last());
        }
        lemma_quote_step(targets.skip(last), snapshots[last], price, step_cap, before);
        assert(targets.skip(last).skip(1) == targets.skip(visited));
    }
}

/// A quote over a list of targets comes to what an execution comes to that visits them in order and
/// ends with the list where nothing else ends it: the same debt, collateral and steps. It is
/// truncated where the step cap ended the walk with budget left.
#[verifier::spinoff_prover]
pub proof fn law_quote_agrees_with_walk(
    targets: Seq<Projection>,
    snapshots: Seq<Snapshot>,
    price: FixedU128,
    debt_budget: u128,
    step_cap: u32,
)
    requires
        begins_with(targets, snapshots),
        walkable(snapshots, price, OrdinaryResult::start(debt_budget)),
        snapshots.len() <= step_cap,
        goes_on(snapshots, price, OrdinaryResult::start(debt_budget), step_cap) ==> targets.len()
            == snapshots.len(),
    ensures
        ({
            let start = OrdinaryResult::start(debt_budget);
            let result = walked(snapshots, price, start);
            quoted(targets, price, step_cap, start) == Ok::<
                (OrdinaryResult, bool),
                DispatchError,
            >(
                (
                    result,
                    snapshots.len() == step_cap && result.remaining > 0 && !stops(
                        snapshots,
                        price,
                        start,
                    ),
                ),
            )
        }),
{
    let start = OrdinaryResult::start(debt_budget);
    let count = snapshots.len() as int;
    assert(snapshots.take(count) == snapshots);
    lemma_walk_begins(snapshots, price, start, count);
    if stops(snapshots, price, start) {
        lemma_walk_begins(snapshots, price, start, count - 1);
        lemma_quote_follows_walk(targets, snapshots, price, start, step_cap, count - 1);
        assert(snapshots.take(count - 1) == snapshots.drop_last());
        assert(targets.skip(count - 1)[0] == targets[count - 1]);
        assert(targets[count - 1] == Ok::<Snapshot, DispatchError>(snapshots[count - 1]));
    } else {
        lemma_quote_follows_walk(targets, snapshots, price, start, step_cap, count);
        if goes_on(snapshots, price, start, step_cap) {
            assert(targets.skip(count).len() == 0);
        }
    }
}

} // verus!
