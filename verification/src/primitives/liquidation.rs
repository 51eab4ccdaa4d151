//! Liquidation handoff types.

use vstd::prelude::*;

verus! {

/// Debt cancelled by external stablecoin and the matching collateral credited to the offset path.
///
/// The vault engine moves `collateral` to `recipient` itself, so the orchestrator never takes
/// possession of liquidated collateral.
#[derive(Clone, Copy, PartialEq, Eq, Structural, Debug)]
pub struct OffsetAllocation<AccountId, B> {
    /// Account that receives the collateral.
    pub recipient: AccountId,
    /// Debt cancelled.
    pub debt: B,
    /// Collateral credited.
    pub collateral: B,
}

/// Compensation paid to the liquidation keeper.
#[derive(Clone, Copy, PartialEq, Eq, Structural, Debug)]
pub struct KeeperCompensation<AccountId, B> {
    /// The keeper.
    pub recipient: AccountId,
    /// Collateral paid.
    pub collateral: B,
}

/// Allocation produced by the liquidation orchestrator and applied by the vault engine.
///
/// Redistributed debt is the snapshot's debt less the offset's, so only the collateral split is
/// specified.
#[derive(Clone, Copy, PartialEq, Eq, Structural, Debug)]
pub struct LiquidationAllocation<AccountId, B> {
    /// The offset's part.
    pub offset: OffsetAllocation<AccountId, B>,
    /// Collateral that is redistributed.
    pub redistribution_collateral: B,
    /// The keeper's part.
    pub keeper: KeeperCompensation<AccountId, B>,
}

/// Fully accrued vault figures that an allocation is sized against.
#[derive(Clone, Copy, PartialEq, Eq, Structural, Debug)]
pub struct LiquidationSnapshot<B> {
    /// Total debt to settle.
    pub debt: B,
    /// Collateral held against the vault.
    pub collateral: B,
}

} // verus!
