//! Redemption policy, state and quotes.

use crate::arithmetic::{least, FixedU128, Permill};
use crate::balance::Balance;
use vstd::prelude::*;

pub use crate::primitives::Millis;

verus! {

/// Quote of what a Stability Pool may cancel against the head of the recovery list.
#[derive(Clone, Copy, PartialEq, Eq, Structural, Debug)]
pub enum RecoveryOffsetQuote<B> {
    /// No `FinalRecovery` vault is queued: deposits proceed as ordinary pending deposits, and
    /// active-pool recovery offsets have no target.
    NoTarget,
    /// The head is below par. Recovery offsets are unavailable and new pool deposits must be
    /// rejected; settlement at a discount stays exclusive to the explicit redemption pathway.
    BelowPar,
    /// Up to `debt` is cancellable against the head.
    Available {
        /// Debt that an offset may cancel.
        debt: B,
    },
}

/// Redemption policy of a stablecoin.
///
/// The ordinary redemption fee rate is the base fee plus the decayed dynamic fee, at most the fee
/// ceiling: a constant that every redemption pays plus a decaying component that redemption volume
/// raises.
#[derive(Clone, Copy, PartialEq, Eq, Debug)]
pub struct RedemptionConfig<B> {
    /// Smallest debt an ordinary redemption may set out to cancel.
    pub minimum_redemption_amount: B,
    /// Half-life of the decaying dynamic fee.
    pub dynamic_fee_decay_period: Millis,
    /// Lower bound of the dynamic fee.
    pub dynamic_fee_floor: FixedU128,
    /// Upper bound of the dynamic fee.
    pub dynamic_fee_ceiling: FixedU128,
    /// Constant fee component every ordinary redemption pays.
    pub base_fee: Permill,
    /// Cap on the total fee rate, base and dynamic components combined.
    pub fee_ceiling: Permill,
    /// Divides the redeemed stablecoin-wide debt fraction before it raises the dynamic fee after
    /// an ordinary redemption.
    pub dynamic_fee_increase_divisor: FixedU128,
    /// Prevents the recovery bonus from worsening a recovery vault that is above par.
    pub final_recovery_bonus_buffer: Permill,
}

impl<B: Balance> RedemptionConfig<B> {
    /// Whether no threshold or divisor is zero and no range inverted.
    pub open spec fn valid(self) -> bool {
        &&& self.minimum_redemption_amount.amount() > 0
        &&& self.dynamic_fee_decay_period > 0
        &&& self.dynamic_fee_floor.inner <= self.dynamic_fee_ceiling.inner
        &&& self.base_fee.parts() <= self.fee_ceiling.parts()
        &&& self.dynamic_fee_increase_divisor.inner > 0
    }

    /// Zero thresholds or divisors and inverted ranges break fee and loop semantics.
    pub fn is_valid(&self) -> (valid: bool)
        ensures
            valid == self.valid(),
    {
        if self.minimum_redemption_amount.into_u128() == 0 {
            return false;
        }
        if self.dynamic_fee_decay_period == 0 {
            return false;
        }
        if self.dynamic_fee_floor.inner > self.dynamic_fee_ceiling.inner {
            return false;
        }
        if self.base_fee.deconstruct() > self.fee_ceiling.deconstruct() {
            return false;
        }
        !self.dynamic_fee_increase_divisor.is_zero()
    }
}

/// Dynamic fee of a stablecoin and the time it was last moved.
#[derive(Clone, Copy, PartialEq, Eq, Structural, Debug)]
pub struct RedemptionState {
    /// Dynamic fee that the last operation left.
    pub dynamic_fee: FixedU128,
    /// Time of the last operation.
    pub last_fee_operation: Millis,
}

impl Default for RedemptionState {
    fn default() -> (state: RedemptionState)
        ensures
            state == (RedemptionState {
                dynamic_fee: FixedU128 { inner: 0 },
                last_fee_operation: 0,
            }),
    {
        RedemptionState { dynamic_fee: FixedU128::zero(), last_fee_operation: 0 }
    }
}

/// Pricing rules applied to a recovery settlement.
#[derive(Clone, Copy, PartialEq, Eq, Structural, Debug)]
pub enum RecoveryRegime {
    /// Above par: face value plus a bonus.
    RecoveryBonus,
    /// Below par: the collateral's value shared over the debt left by insurance cover.
    InsuranceAdjusted,
}

/// What a redeemer asks for.
#[derive(Clone, Copy, PartialEq, Eq, Structural, Debug)]
pub struct RedemptionTerms<B> {
    /// Cap on the total cost, fee included.
    pub max_stable_to_spend: B,
    /// Slippage floor for the full budget, scaled pro rata on a partial fill.
    pub min_collateral_out: B,
}

/// Market-side result of a redemption.
#[derive(Clone, Copy, PartialEq, Eq, Structural, Debug)]
pub struct RedemptionQuote<B> {
    /// Debt cancelled using the redeemer's stablecoin. This excludes both the redemption fee and
    /// any Insurance Fund settlement.
    pub debt_cancelled: B,
    /// Collateral paid to the recipient.
    pub collateral_out: B,
    /// Stablecoin routed as the redemption fee.
    pub fee: B,
    /// Targets inspected, including skipped targets and barriers.
    pub steps: u32,
    /// The step cap stopped the quote while budget remained.
    pub truncated: bool,
}

impl Default for RedemptionQuote<u128> {
    fn default() -> (quote: RedemptionQuote<u128>)
        ensures
            quote == (RedemptionQuote::<u128> {
                debt_cancelled: 0,
                collateral_out: 0,
                fee: 0,
                steps: 0,
                truncated: false,
            }),
    {
        RedemptionQuote {
            debt_cancelled: 0,
            collateral_out: 0,
            fee: 0,
            steps: 0,
            truncated: false,
        }
    }
}

impl<B: Balance> RedemptionQuote<B> {
    /// Total stablecoin the redeemer must supply.
    pub fn stable_in(&self) -> (total: B)
        ensures
            total.amount() == least(
                (self.debt_cancelled.amount() + self.fee.amount()) as int,
                B::limit() as int,
            ),
    {
        proof {
            B::max_holds();
            if self.debt_cancelled.amount() + self.fee.amount() <= B::limit() {
                B::of_holds(self.debt_cancelled.amount() + self.fee.amount());
            }
        }
        match self.debt_cancelled.into_u128().checked_add(self.fee.into_u128()) {
            Some(total) => match B::try_from_u128(total) {
                Some(total) => total,
                None => B::max_value(),
            },
            None => B::max_value(),
        }
    }
}

} // verus!
