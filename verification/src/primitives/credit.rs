//! Stablecoin that has left one account and not yet reached another.

use crate::arithmetic::{least, saturated};
use vstd::prelude::*;

verus! {

/// Identifier of a stablecoin.
pub type StableId = u64;

/// An amount of one stablecoin in transit.
#[derive(PartialEq, Eq, Debug)]
pub struct StableCredit {
    /// The stablecoin.
    pub asset: StableId,
    /// The amount.
    pub amount: u128,
}

impl StableCredit {
    /// No amount of `asset`.
    pub fn zero(asset: StableId) -> (credit: StableCredit)
        ensures
            credit == (StableCredit { asset, amount: 0 }),
    {
        StableCredit { asset, amount: 0 }
    }

    /// The stablecoin.
    pub fn asset(&self) -> (asset: StableId)
        ensures
            asset == self.asset,
    {
        self.asset
    }

    /// The amount.
    pub fn peek(&self) -> (amount: u128)
        ensures
            amount == self.amount,
    {
        self.amount
    }

    /// Carves at most `amount` out of the credit.
    pub fn extract(&mut self, amount: u128) -> (carved: StableCredit)
        ensures
            carved.asset == old(self).asset,
            carved.amount == least(old(self).amount as int, amount as int),
            final(self).asset == old(self).asset,
            final(self).amount == old(self).amount - carved.amount,
    {
        let carved = if self.amount <= amount {
            self.amount
        } else {
            amount
        };
        self.amount = self.amount - carved;
        StableCredit { asset: self.asset, amount: carved }
    }

    /// Merges `other` into the credit, or hands it back if it is of another stablecoin.
    pub fn subsume(&mut self, other: StableCredit) -> (merged: Result<(), StableCredit>)
        ensures
            final(self).asset == old(self).asset,
            old(self).asset == other.asset ==> merged is Ok && final(self).amount == saturated(
                old(self).amount + other.amount,
            ),
            old(self).asset != other.asset ==> merged == Err::<(), StableCredit>(other)
                && *final(self) == *old(self),
    {
        if self.asset == other.asset {
            self.amount = self.amount.saturating_add(other.amount);
            Ok(())
        } else {
            Err(other)
        }
    }
}

} // verus!
