//! Shared list namespace.
//!
//! Every pallet that keeps a sorted or first-in-first-out list adds a variant here and constructs
//! its own ids. Variants are only ever appended: the enum is a storage key.

use vstd::prelude::*;

verus! {

/// One list per market and use case.
#[derive(Clone, Copy, PartialEq, Eq, Structural, PartialOrd, Ord, Debug)]
pub enum StableListId<CollateralId, StableId> {
    /// The borrow-rate index, ordered by annual rate.
    Rate(CollateralId, StableId),
    /// The `FinalRecovery` list, first in first out: priorities strictly increase, and the oldest
    /// member is the list tail.
    FinalRecovery(CollateralId, StableId),
    /// The stability pool's pending deposits, first in first out by the same convention.
    StabilityPending(CollateralId, StableId),
}

impl Default for StableListId<u64, u64> {
    fn default() -> (id: StableListId<u64, u64>)
        ensures
            id == StableListId::<u64, u64>::Rate(0, 0),
    {
        StableListId::Rate(0, 0)
    }
}

} // verus!
