//! Vault operations for external redemption flows, keyed by collateral and stablecoin.

use crate::arithmetic::{least, surplus, FixedU128, Permill};
use crate::balance::Balance;
use crate::primitives::credit::{StableCredit, StableId};
use crate::primitives::error::DispatchError;
use crate::primitives::vault::{DebtCollateral, VaultStatus};
use vstd::prelude::*;

verus! {

/// Settlement consumed by [`VaultInterface::redeem_step`].
///
/// Owning `debt_payment` ties the burn to the cancellation: the vault engine cannot cancel debt
/// without consuming the matching coin, and the orchestrator cannot misreport what it paid.
#[must_use]
#[derive(PartialEq, Eq, Debug)]
pub struct RedemptionSettlement<Credit, B> {
    /// Stablecoin that cancels the vault's debt.
    pub debt_payment: Credit,
    /// Collateral that leaves the vault for the recipient.
    pub collateral_to_recipient: B,
}

/// Fully accrued snapshot of a redemption target, against which a step is sized and priced.
///
/// `status` selects the pricing rules: `Active` and `Dormant` redeem at face value,
/// `FinalRecovery` by recovery-settlement rules.
#[derive(Clone, Copy, PartialEq, Eq, Debug)]
pub struct RedemptionStepSnapshot<B> {
    /// Lifecycle status of the vault.
    pub status: VaultStatus,
    /// Base debt, excluding the conditional terminal charge.
    pub debt: B,
    /// One-unit charge applied only when a step settles the vault in full.
    pub terminal_interest_charge: B,
    /// Collateral held against the vault.
    pub collateral: B,
    /// Branch redistribution penalty, bounding the recovery bonus. Only consulted by
    /// `FinalRecovery` pricing.
    pub redistribution_penalty: Permill,
    /// Ratio above which a `FinalRecovery` vault must exit recovery before it is redeemed.
    pub initial_collateralization_ratio: FixedU128,
    /// Debt below which a vault cannot return to the rate index.
    pub minimum_debt: B,
}

impl<B: Balance> RedemptionStepSnapshot<B> {
    /// Base debt plus the terminal charge, at most what the balance type holds.
    pub open spec fn payoff(self) -> int {
        least(
            (self.debt.amount() + self.terminal_interest_charge.amount()) as int,
            B::limit() as int,
        )
    }

    /// `limit`, less the unit that a partial payment reserves for the terminal charge.
    pub open spec fn partial(self, limit: int) -> int {
        if self.terminal_interest_charge.amount() == 0 {
            limit
        } else {
            surplus(limit, 1)
        }
    }

    /// The largest debt payment within `budget`.
    pub open spec fn sized(self, budget: int) -> int {
        if budget >= self.payoff() {
            self.payoff()
        } else {
            least(self.partial(self.debt.amount() as int), budget)
        }
    }

    /// Whether a vault takes a payment of `amount`: the whole payoff, or less than leaves no base
    /// debt for a terminal charge.
    pub open spec fn payable(self, amount: int) -> bool {
        ||| amount == self.payoff()
        ||| 0 <= amount <= self.partial(self.debt.amount() as int)
    }

    /// The debt and collateral that ratio calculations read.
    pub fn position(&self) -> (position: DebtCollateral<B>)
        ensures
            position == (DebtCollateral { debt: self.debt, collateral: self.collateral }),
    {
        DebtCollateral { debt: self.debt, collateral: self.collateral }
    }

    /// The payment that settles the vault in full: base debt plus the terminal charge.
    pub fn full_payoff(&self) -> (payoff: B)
        ensures
            payoff.amount() == self.payoff(),
    {
        let total = self.debt.into_u128().checked_add(self.terminal_interest_charge.into_u128());
        proof {
            B::max_holds();
            if self.debt.amount() + self.terminal_interest_charge.amount() <= B::limit() {
                B::of_holds(self.debt.amount() + self.terminal_interest_charge.amount());
            }
        }
        match total {
            Some(total) => match B::try_from_u128(total) {
                Some(payoff) => payoff,
                None => B::max_value(),
            },
            None => B::max_value(),
        }
    }

    /// Reserves one base-debt unit for the terminal charge on a partial payment.
    pub fn partial_cap(&self, limit: B) -> (cap: B)
        ensures
            cap.amount() == self.partial(limit.amount() as int),
    {
        if self.terminal_interest_charge.into_u128() == 0 {
            return limit;
        }
        let whole = limit.into_u128();
        let reserved: u128 = if whole == 0 {
            0
        } else {
            whole - 1
        };
        proof {
            limit.holds_its_amount();
            B::of_holds(reserved as nat);
        }
        match B::try_from_u128(reserved) {
            Some(cap) => cap,
            None => limit,
        }
    }

    /// Returns the largest debt payment within `budget`.
    ///
    /// Returns the full payoff when possible. Otherwise, returns a payment limited by
    /// [`Self::partial_cap`].
    pub fn size_within(&self, budget: B) -> (payment: B)
        ensures
            payment.amount() == self.sized(budget.amount() as int),
    {
        let full_payoff = self.full_payoff();
        if budget.into_u128() >= full_payoff.into_u128() {
            return full_payoff;
        }
        let cap = self.partial_cap(self.debt);
        if cap.into_u128() <= budget.into_u128() {
            cap
        } else {
            budget
        }
    }
}

/// The sized payment stays within the budget, is one the vault takes, and no other payment within
/// the budget that the vault takes is larger.
pub proof fn law_sized_payment_is_the_largest_within_the_budget<B: Balance>(
    snapshot: RedemptionStepSnapshot<B>,
    budget: int,
    amount: int,
)
    requires
        0 <= budget,
    ensures
        0 <= snapshot.sized(budget) <= budget,
        snapshot.payable(snapshot.sized(budget)),
        snapshot.payable(amount) && amount <= budget ==> amount <= snapshot.sized(budget),
{
    snapshot.debt.holds_its_amount();
}

/// A partial payment leaves base debt in the vault whenever a terminal charge applies.
pub proof fn law_partial_payment_leaves_debt_for_the_terminal_charge<B: Balance>(
    snapshot: RedemptionStepSnapshot<B>,
    budget: int,
)
    requires
        0 <= budget < snapshot.payoff(),
        snapshot.debt.amount() > 0,
        snapshot.terminal_interest_charge.amount() > 0,
    ensures
        snapshot.sized(budget) < snapshot.debt.amount(),
{
}

/// Provides authoritative vault state and atomic settlement for external redemption flows.
///
/// [`Self::redeem_step`] validates the settlement against a new projection. A mismatch aborts the
/// complete step.
pub trait VaultInterface: Sized {
    /// Identifier of a collateral.
    type CollateralId: Copy;

    /// Identifier of an account.
    type AccountId: Copy;

    /// Whether applying a settlement to the owner's vault can end with `applied`, and take the
    /// vaults from `before` to `after`.
    spec fn settles(
        before: Self,
        collateral_id: Self::CollateralId,
        stable_id: StableId,
        owner: Self::AccountId,
        recipient: Self::AccountId,
        settlement: RedemptionSettlement<StableCredit, u128>,
        applied: Result<(), DispatchError>,
        after: Self,
    ) -> bool;

    /// The highest-priority redemption target and its lifecycle status: the head of the
    /// `FinalRecovery` list first, then the dormant redemption target, then the tail of the rate
    /// index (`Active`). `after` resumes the rate-index walk behind a carried cursor; a priority
    /// target preempts any cursor.
    fn next_redemption_target(
        &self,
        collateral_id: Self::CollateralId,
        stable_id: StableId,
        after: Option<Self::AccountId>,
    ) -> Option<(Self::AccountId, VaultStatus)>;

    /// The `nth` target, from zero, of the traversal a read-only redemption quote folds over: the
    /// head of the `FinalRecovery` list, else the parked dormant target, first, then active vaults
    /// from the lowest rate upward.
    ///
    /// A quote projection only, not the executable queue: projection never reshapes the queue, so
    /// a skipped and a drained target both continue at the next element. Execution must instead
    /// read [`Self::next_redemption_target`] again at each step, because settling a step can
    /// reshape the queue.
    fn redemption_quote_targets(
        &self,
        collateral_id: Self::CollateralId,
        stable_id: StableId,
        nth: u32,
    ) -> Option<Self::AccountId>;

    /// Project the fully accrued values [`Self::redeem_step`] would settle against, without moving
    /// assets.
    fn project_redemption_snapshot(
        &self,
        collateral_id: Self::CollateralId,
        stable_id: StableId,
        owner: Self::AccountId,
    ) -> Result<RedemptionStepSnapshot<u128>, DispatchError>;

    /// Applies one atomic redemption settlement to the owner's vault.
    ///
    /// The payment must use the market stablecoin and must not exceed the full payoff. The
    /// collateral payment must not exceed the vault collateral. A full payment closes the vault.
    /// A partial payment must leave base debt when a terminal charge applies. The caller charges
    /// the redemption fee.
    ///
    /// An error consumes the payment inside a step that is rolled back, so callers must propagate
    /// the error and abort the dispatch.
    fn redeem_step(
        &mut self,
        collateral_id: Self::CollateralId,
        stable_id: StableId,
        owner: Self::AccountId,
        recipient: Self::AccountId,
        settlement: RedemptionSettlement<StableCredit, u128>,
    ) -> (applied: Result<(), DispatchError>)
        ensures
            Self::settles(
                *old(self),
                collateral_id,
                stable_id,
                owner,
                recipient,
                settlement,
                applied,
                *final(self),
            ),
    ;

    /// Total debt issued in the stablecoin across every one of its collateral markets, the
    /// denominator of the dynamic redemption fee's redeemed fraction. Includes interest accrued
    /// since each market was last touched.
    fn stablecoin_debt(&self, stable_id: StableId) -> u128;
}

} // verus!
