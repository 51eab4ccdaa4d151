//! Vault lifecycle and positions.

use vstd::prelude::*;

verus! {

/// Lifecycle status of a vault.
///
/// Queue membership derives it, target selection returns it, and step pricing keys off it:
/// `Active` and `Dormant` redeem at face value, `FinalRecovery` at recovery-settlement pricing.
#[derive(Clone, Copy, PartialEq, Eq, Structural, Debug)]
pub enum VaultStatus {
    /// Debt-bearing vault at or above the minimum debt, in the rate index.
    Active,
    /// Below the minimum debt (possibly zero) after redemption. Out of the rate index, may be
    /// revived to `Active`.
    Dormant,
    /// Last eligible vault below the minimum ratio, parked in the first-in-first-out list and
    /// resolved by recovery redemptions or offsets.
    FinalRecovery,
}

impl VaultStatus {
    /// Debt-bearing vault, present in the rate index.
    pub fn is_active(&self) -> (active: bool)
        ensures
            active == (*self == VaultStatus::Active),
    {
        matches!(self, VaultStatus::Active)
    }

    /// Drained below the minimum debt, out of the rate index.
    pub fn is_dormant(&self) -> (dormant: bool)
        ensures
            dormant == (*self == VaultStatus::Dormant),
    {
        matches!(self, VaultStatus::Dormant)
    }

    /// Parked in the first-in-first-out list, awaiting recovery settlement.
    pub fn is_final_recovery(&self) -> (recovering: bool)
        ensures
            recovering == (*self == VaultStatus::FinalRecovery),
    {
        matches!(self, VaultStatus::FinalRecovery)
    }
}

/// Debt and its associated collateral.
///
/// The pair is used both for live positions and for amounts assigned by a settlement path.
#[derive(Clone, Copy, PartialEq, Eq, Structural, Debug)]
pub struct DebtCollateral<B> {
    /// Debt side of the pair.
    pub debt: B,
    /// Collateral side of the pair.
    pub collateral: B,
}

} // verus!
