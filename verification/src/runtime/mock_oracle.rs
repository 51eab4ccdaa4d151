//! Root-settable price feed that stands in for an oracle.
//!
//! Deliberately minimal: no operator set, no aggregation, no staleness window.

use crate::arithmetic::FixedU128;
use crate::primitives::error::DispatchError;
use crate::primitives::origin::RawOrigin;
use crate::storage::StorageMap;
use vstd::prelude::*;

verus! {

/// The price that a feed gives of a collateral, or `Unavailable` where it has none.
pub open spec fn quoted(prices: Map<u64, FixedU128>, collateral_id: u64) -> Result<
    FixedU128,
    DispatchError,
> {
    if prices.contains_key(collateral_id) {
        Ok(prices[collateral_id])
    } else {
        Err(DispatchError::Unavailable)
    }
}

/// Price of one collateral unit in stablecoin units, by collateral.
#[derive(Debug)]
pub struct Pallet {
    /// The prices.
    pub prices: StorageMap<FixedU128>,
}

impl Pallet {
    /// No prices.
    pub fn new() -> (pallet: Pallet)
        ensures
            pallet.prices@ == Map::<u64, FixedU128>::empty(),
    {
        Pallet { prices: StorageMap::new() }
    }

    /// Sets the price of a collateral. Only for `Root`.
    pub fn set_price(&mut self, origin: RawOrigin<u64>, key: u64, price: FixedU128) -> (set: Result<
        (),
        DispatchError,
    >)
        ensures
            set == (if origin == RawOrigin::<u64>::Root {
                Ok(())
            } else {
                Err(DispatchError::BadOrigin)
            }),
            final(self).prices@ == (if set is Ok {
                old(self).prices@.insert(key, price)
            } else {
                old(self).prices@
            }),
    {
        match origin {
            RawOrigin::Root => {
                self.prices.insert(key, price);
                Ok(())
            },
            _ => Err(DispatchError::BadOrigin),
        }
    }

    /// Clears the price of a collateral. Only for `Root`.
    pub fn clear_price(&mut self, origin: RawOrigin<u64>, key: u64) -> (cleared: Result<
        (),
        DispatchError,
    >)
        ensures
            cleared == (if origin == RawOrigin::<u64>::Root {
                Ok(())
            } else {
                Err(DispatchError::BadOrigin)
            }),
            final(self).prices@ == (if cleared is Ok {
                old(self).prices@.remove(key)
            } else {
                old(self).prices@
            }),
    {
        match origin {
            RawOrigin::Root => {
                self.prices.remove(key);
                Ok(())
            },
            _ => Err(DispatchError::BadOrigin),
        }
    }

    /// The price of a collateral, or `Unavailable` where no feed exists.
    pub fn provide_price(&self, collateral_id: u64) -> (price: Result<FixedU128, DispatchError>)
        ensures
            price == quoted(self.prices@, collateral_id),
    {
        match self.prices.get(collateral_id) {
            Some(price) => Ok(price),
            None => Err(DispatchError::Unavailable),
        }
    }
}

/// A price that was set is the one that is provided, until it is cleared; the prices of other
/// collaterals stay what they were.
pub proof fn law_a_set_price_is_provided(
    prices: Map<u64, FixedU128>,
    key: u64,
    price: FixedU128,
    other: u64,
)
    ensures
        quoted(prices.insert(key, price), key) == Ok::<FixedU128, DispatchError>(price),
        quoted(prices.remove(key), key) == Err::<FixedU128, DispatchError>(
            DispatchError::Unavailable,
        ),
        other != key ==> quoted(prices.insert(key, price), other) == quoted(prices, other),
        other != key ==> quoted(prices.remove(key), other) == quoted(prices, other),
{
}

} // verus!
