//! Yield hook between the vault engine and the Stability Pool.

use vstd::prelude::*;

verus! {

/// Called with every stablecoin credit the vault engine mints for a market.
///
/// The implementation takes the Stability Pool's share and returns the remainder, which the vault
/// engine hands to its fee destination. It cannot fail: one that cannot distribute returns the
/// credit untouched.
pub trait OnBranchYield<CollateralId, StableId, Credit> {
    /// Takes the pool's share of `credit` and returns the remainder.
    fn distribute_yield(
        &mut self,
        collateral_id: &CollateralId,
        stable_id: &StableId,
        credit: Credit,
    ) -> Credit;
}

/// Without a pool, the whole credit remains.
impl<CollateralId, StableId, Credit> OnBranchYield<CollateralId, StableId, Credit> for () {
    fn distribute_yield(
        &mut self,
        collateral_id: &CollateralId,
        stable_id: &StableId,
        credit: Credit,
    ) -> (remainder: Credit)
        ensures
            remainder == credit,
    {
        credit
    }
}

} // verus!
