//! Interfaces for Stability Pool offsets in liquidation settlement.

use crate::balance::Balance;
use crate::primitives::credit::StableCredit;
use crate::primitives::error::DispatchError;
use vstd::prelude::*;

verus! {

/// The active and pending values of a Stability Pool offset.
#[derive(Clone, Copy, PartialEq, Eq, Structural, Debug)]
pub struct OffsetLegs<T> {
    /// The value for the active-pool leg.
    pub active: T,
    /// The value for the pending-deposit leg.
    pub pending: T,
}

/// A value that can be dropped cleanly when it stands for nothing.
pub trait TryDrop: Sized {
    /// Whether the value stands for nothing.
    spec fn is_nothing(&self) -> bool;

    /// Drops the value if it stands for nothing, else hands it back.
    fn try_drop(self) -> (dropped: Result<(), Self>)
        ensures
            dropped == (if self.is_nothing() {
                Ok(())
            } else {
                Err(self)
            }),
    ;
}

impl TryDrop for StableCredit {
    open spec fn is_nothing(&self) -> bool {
        self.amount == 0
    }

    fn try_drop(self) -> (dropped: Result<(), StableCredit>) {
        if self.amount == 0 {
            Ok(())
        } else {
            Err(self)
        }
    }
}

/// Provides read-only offset limits for Stability Pool markets.
///
/// Valid offset amounts do not form a contiguous range: full depletion is always valid, a partial
/// offset must leave neither a remainder below the pool minimum nor the stablecoin account in its
/// minimum-balance dead zone. Thus, each limit depends on the requested debt.
pub trait StabilityPoolInspect<CollateralId, StableId, B> {
    /// Returns the active-pool debt that the pool can cancel, up to `max_debt`.
    ///
    /// The result is a quote, not a reservation. It remains valid while the caller does not change
    /// the pool.
    fn reducible_active(
        &self,
        collateral_id: &CollateralId,
        stable_id: &StableId,
        max_debt: B,
    ) -> B;

    /// Returns the pending-deposit debt that the pool can cancel, up to `max_debt`.
    ///
    /// `active_debt` is the active-pool debt for the same offset. Both legs burn stablecoin from
    /// one custody account.
    fn reducible_pending(
        &self,
        collateral_id: &CollateralId,
        stable_id: &StableId,
        max_debt: B,
        active_debt: B,
    ) -> B;
}

/// Applies a liquidation offset to one Stability Pool market.
pub trait StabilityPoolOffset<CollateralId, StableId, B, CollateralCredit>: StabilityPoolInspect<
    CollateralId,
    StableId,
    B,
> {
    /// Cancels `debt` against pool deposits and pays the specified `collateral` to each pool leg.
    ///
    /// The operation uses exact amounts: each debt must equal its own limit when the operation
    /// starts. On success, the pool burns the specified stablecoin debt, and the caller reduces
    /// vault debt by the same amounts. The credits are consumed also on an error, so the operation
    /// must run inside a transaction that restores them.
    fn offset(
        &mut self,
        collateral_id: &CollateralId,
        stable_id: &StableId,
        debt: OffsetLegs<B>,
        collateral: OffsetLegs<CollateralCredit>,
    ) -> Result<(), DispatchError>;
}

/// Empty Stability Pool limits for a runtime without a pool: no debt is reducible.
impl<CollateralId, StableId, B: Balance> StabilityPoolInspect<CollateralId, StableId, B> for () {
    fn reducible_active(
        &self,
        collateral_id: &CollateralId,
        stable_id: &StableId,
        max_debt: B,
    ) -> (debt: B)
        ensures
            debt.amount() == 0,
    {
        B::zero()
    }

    fn reducible_pending(
        &self,
        collateral_id: &CollateralId,
        stable_id: &StableId,
        max_debt: B,
        active_debt: B,
    ) -> (debt: B)
        ensures
            debt.amount() == 0,
    {
        B::zero()
    }
}

/// Without a pool, an offset succeeds only when both debts and both collateral credits are zero.
impl<CollateralId, StableId, B: Balance, CollateralCredit: TryDrop> StabilityPoolOffset<
    CollateralId,
    StableId,
    B,
    CollateralCredit,
> for () {
    fn offset(
        &mut self,
        collateral_id: &CollateralId,
        stable_id: &StableId,
        debt: OffsetLegs<B>,
        collateral: OffsetLegs<CollateralCredit>,
    ) -> (offset: Result<(), DispatchError>)
        ensures
            offset == (if debt.active.amount() == 0 && debt.pending.amount() == 0
                && collateral.active.is_nothing() && collateral.pending.is_nothing() {
                Ok(())
            } else {
                Err(DispatchError::Other("no Stability Pool to offset against"))
            }),
    {
        let debt_is_zero = debt.active.into_u128() == 0 && debt.pending.into_u128() == 0;
        // A successful drop proves that a credit is zero. Thus, a nonzero credit cannot disappear
        // in a successful no-op.
        let active_is_zero = collateral.active.try_drop().is_ok();
        let pending_is_zero = collateral.pending.try_drop().is_ok();
        if debt_is_zero && active_is_zero && pending_is_zero {
            Ok(())
        } else {
            Err(DispatchError::Other("no Stability Pool to offset against"))
        }
    }
}

} // verus!
