//! Branch operating modes.

use crate::primitives::error::DispatchError;
use crate::primitives::Millis;
use vstd::prelude::*;

verus! {

/// Branch operating mode. `Normal` and `Safety` are derived from the live total ratio; `Frozen` is
/// the only stored mode.
#[derive(Clone, Copy, PartialEq, Eq, Structural, Debug)]
pub enum BranchMode {
    /// The branch operates without restriction.
    Normal,
    /// The branch protects its total ratio.
    Safety,
    /// The branch is halted.
    Frozen,
}

/// Reason the branch was put into `Frozen` mode.
#[derive(Clone, Copy, PartialEq, Eq, Structural, Debug)]
pub enum FrozenReason {
    /// No usable price exists.
    OracleFailure,
    /// Governance halted the branch.
    Governance,
}

/// `Frozen` state attached to a branch while it is frozen.
#[derive(Clone, Copy, PartialEq, Eq, Structural, Debug)]
pub struct FrozenState {
    /// Why the branch is frozen.
    pub reason: FrozenReason,
    /// Since when the branch is frozen.
    pub entered_at: Millis,
}

/// Read-only access to a market's operating mode, which the vault engine decides.
///
/// Implementations report `Frozen` when no usable price exists, so that price-dependent consumers
/// halt rather than default to the most permissive mode, and an error when the market is not
/// registered.
pub trait BranchModeProvider<CollateralId, StableId> {
    /// The market's operating mode.
    fn branch_mode(
        &self,
        collateral_id: &CollateralId,
        stable_id: &StableId,
    ) -> Result<BranchMode, DispatchError>;
}

/// Branch-level operations of the vault engine.
pub trait BranchInterface<CollateralId, StableId>: BranchModeProvider<CollateralId, StableId> {
    /// Issues the market's pending aggregate interest through its yield route.
    ///
    /// Fails when the market is not registered. A frozen market issues nothing.
    fn accrue_interest(
        &mut self,
        collateral_id: &CollateralId,
        stable_id: &StableId,
    ) -> Result<(), DispatchError>;
}

} // verus!
