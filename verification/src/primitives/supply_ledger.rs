//! Supply accounting by facilitator.
//!
//! A stablecoin's supply is minted and burned by one or more facilitators, such as a market suite
//! or the coin owner's self-issuance. Each holds a bucket per coin: its level is the supply it has
//! minted and not yet burned, its capacity the ceiling that the level may not exceed.

use crate::balance::Balance;
use crate::primitives::error::DispatchError;
use vstd::prelude::*;

verus! {

/// Supply buckets per facilitator for one or more stablecoins.
pub trait SupplyLedger<StableId, FacilitatorId, B> {
    /// Mint ceiling of the facilitator's bucket.
    fn capacity(&self, stable_id: &StableId, facilitator: &FacilitatorId) -> B;

    /// Supply minted by the facilitator and not yet burned.
    fn level(&self, stable_id: &StableId, facilitator: &FacilitatorId) -> B;

    /// Records `amount` about to be minted by the facilitator.
    ///
    /// Fails when the level would exceed the bucket's capacity; the caller must then abort the
    /// mint.
    fn note_mint(
        &mut self,
        stable_id: &StableId,
        facilitator: &FacilitatorId,
        amount: B,
    ) -> Result<(), DispatchError>;

    /// Records `amount` burned by the facilitator, returning the portion actually deducted from its
    /// level.
    ///
    /// A shortfall means that supply minted by one facilitator was burned under another's id.
    fn note_burn(&mut self, stable_id: &StableId, facilitator: &FacilitatorId, amount: B) -> B;
}

/// Without a ledger, capacity is unlimited and nothing is attributed: every mint is admitted and
/// every burn reports as fully recorded.
impl<StableId, FacilitatorId, B: Balance> SupplyLedger<StableId, FacilitatorId, B> for () {
    fn capacity(&self, stable_id: &StableId, facilitator: &FacilitatorId) -> (ceiling: B)
        ensures
            B::amount(ceiling) == B::limit(),
    {
        B::max_value()
    }

    fn level(&self, stable_id: &StableId, facilitator: &FacilitatorId) -> (supply: B)
        ensures
            B::amount(supply) == 0,
    {
        B::zero()
    }

    fn note_mint(
        &mut self,
        stable_id: &StableId,
        facilitator: &FacilitatorId,
        amount: B,
    ) -> (noted: Result<(), DispatchError>)
        ensures
            noted == Ok::<(), DispatchError>(()),
    {
        Ok(())
    }

    fn note_burn(&mut self, stable_id: &StableId, facilitator: &FacilitatorId, amount: B) -> (deducted:
        B)
        ensures
            deducted == amount,
    {
        amount
    }
}

} // verus!
