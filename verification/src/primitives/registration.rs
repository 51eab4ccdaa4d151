//! Market registration and deregistration hook.

use crate::primitives::error::DispatchError;
use vstd::prelude::*;

verus! {

/// Lifecycle hook for markets. A market is one stablecoin against one collateral.
///
/// The vault engine calls [`Self::on_registered`] after registration and [`Self::on_deregistered`]
/// before removal, both with the stablecoin's market count once the call commits, so that handlers
/// keep per-market or stablecoin-wide state without a counter of their own.
///
/// A handler that cares about one edge only returns `Ok` on the other. An error rolls the registration
/// (or removal) back.
pub trait OnBranchLifecycle<CollateralId, StableId, AccountId>: Sized {
    /// Handler-specific configuration supplied at market registration. The vault engine forwards
    /// it without interpreting it.
    type RegistrationConfig;

    /// Reason for which a handler rejects a market.
    type Error;

    /// Whether a registration can end with `handled`, and take the handler from `before` to `after`.
    spec fn registers(
        before: Self,
        collateral_id: CollateralId,
        stable_id: StableId,
        stablecoin_markets: u32,
        config: Self::RegistrationConfig,
        funder: AccountId,
        handled: Result<(), Self::Error>,
        after: Self,
    ) -> bool;

    /// Whether a removal can end with `handled`, and take the handler from `before` to `after`.
    spec fn deregisters(
        before: Self,
        collateral_id: CollateralId,
        stable_id: StableId,
        remaining_stablecoin_markets: u32,
        handled: Result<(), Self::Error>,
        after: Self,
    ) -> bool;

    /// Run when a new market is registered. `stablecoin_markets` includes it, so a count of one is
    /// the market that seeds whatever the handler keeps per stablecoin.
    ///
    /// `funder` is the account charged for any refundable setup cost the handler takes.
    fn on_registered(
        &mut self,
        collateral_id: &CollateralId,
        stable_id: &StableId,
        stablecoin_markets: u32,
        config: Self::RegistrationConfig,
        funder: &AccountId,
    ) -> (handled: Result<(), Self::Error>)
        ensures
            Self::registers(
                *old(self),
                *collateral_id,
                *stable_id,
                stablecoin_markets,
                config,
                *funder,
                handled,
                *final(self),
            ),
    ;

    /// Run when an empty market is removed. `remaining_stablecoin_markets` excludes it.
    fn on_deregistered(
        &mut self,
        collateral_id: &CollateralId,
        stable_id: &StableId,
        remaining_stablecoin_markets: u32,
    ) -> (handled: Result<(), Self::Error>)
        ensures
            Self::deregisters(
                *old(self),
                *collateral_id,
                *stable_id,
                remaining_stablecoin_markets,
                handled,
                *final(self),
            ),
    ;
}

/// Handles nothing: every market is registered and removed, without a configuration.
impl<CollateralId, StableId, AccountId> OnBranchLifecycle<
    CollateralId,
    StableId,
    AccountId,
> for () {
    type RegistrationConfig = ();

    type Error = DispatchError;

    open spec fn registers(
        before: Self,
        collateral_id: CollateralId,
        stable_id: StableId,
        stablecoin_markets: u32,
        config: (),
        funder: AccountId,
        handled: Result<(), DispatchError>,
        after: Self,
    ) -> bool {
        handled is Ok && after == before
    }

    open spec fn deregisters(
        before: Self,
        collateral_id: CollateralId,
        stable_id: StableId,
        remaining_stablecoin_markets: u32,
        handled: Result<(), DispatchError>,
        after: Self,
    ) -> bool {
        handled is Ok && after == before
    }

    fn on_registered(
        &mut self,
        _collateral_id: &CollateralId,
        _stable_id: &StableId,
        _stablecoin_markets: u32,
        _config: (),
        _funder: &AccountId,
    ) -> (handled: Result<(), DispatchError>) {
        Ok(())
    }

    fn on_deregistered(
        &mut self,
        _collateral_id: &CollateralId,
        _stable_id: &StableId,
        _remaining_stablecoin_markets: u32,
    ) -> (handled: Result<(), DispatchError>) {
        Ok(())
    }
}

/// Runs the first handler, then the second, stopping at the first error so that the caller can
/// roll the transaction back. A longer chain of handlers nests pairs.
impl<CollateralId, StableId, AccountId, First, Second> OnBranchLifecycle<
    CollateralId,
    StableId,
    AccountId,
> for (First, Second) where
    First: OnBranchLifecycle<CollateralId, StableId, AccountId>,
    Second: OnBranchLifecycle<CollateralId, StableId, AccountId, Error = First::Error>,
 {
    type RegistrationConfig = (First::RegistrationConfig, Second::RegistrationConfig);

    type Error = First::Error;

    open spec fn registers(
        before: Self,
        collateral_id: CollateralId,
        stable_id: StableId,
        stablecoin_markets: u32,
        config: Self::RegistrationConfig,
        funder: AccountId,
        handled: Result<(), First::Error>,
        after: Self,
    ) -> bool {
        exists|first: Result<(), First::Error>|
            {
                &&& #[trigger] First::registers(
                    before.0,
                    collateral_id,
                    stable_id,
                    stablecoin_markets,
                    config.0,
                    funder,
                    first,
                    after.0,
                )
                &&& match first {
                    Ok(_) => Second::registers(
                        before.1,
                        collateral_id,
                        stable_id,
                        stablecoin_markets,
                        config.1,
                        funder,
                        handled,
                        after.1,
                    ),
                    Err(_) => handled == first && after.1 == before.1,
                }
            }
    }

    open spec fn deregisters(
        before: Self,
        collateral_id: CollateralId,
        stable_id: StableId,
        remaining_stablecoin_markets: u32,
        handled: Result<(), First::Error>,
        after: Self,
    ) -> bool {
        exists|first: Result<(), First::Error>|
            {
                &&& #[trigger] First::deregisters(
                    before.0,
                    collateral_id,
                    stable_id,
                    remaining_stablecoin_markets,
                    first,
                    after.0,
                )
                &&& match first {
                    Ok(_) => Second::deregisters(
                        before.1,
                        collateral_id,
                        stable_id,
                        remaining_stablecoin_markets,
                        handled,
                        after.1,
                    ),
                    Err(_) => handled == first && after.1 == before.1,
                }
            }
    }

    fn on_registered(
        &mut self,
        collateral_id: &CollateralId,
        stable_id: &StableId,
        stablecoin_markets: u32,
        config: Self::RegistrationConfig,
        funder: &AccountId,
    ) -> (handled: Result<(), First::Error>) {
        let first = self.0.on_registered(
            collateral_id,
            stable_id,
            stablecoin_markets,
            config.0,
            funder,
        );
        let handled = if first.is_err() {
            first
        } else {
            self.1.on_registered(collateral_id, stable_id, stablecoin_markets, config.1, funder)
        };
        assert(First::registers(
            old(self).0,
            *collateral_id,
            *stable_id,
            stablecoin_markets,
            config.0,
            *funder,
            first,
            self.0,
        ));
        handled
    }

    fn on_deregistered(
        &mut self,
        collateral_id: &CollateralId,
        stable_id: &StableId,
        remaining_stablecoin_markets: u32,
    ) -> (handled: Result<(), First::Error>) {
        let first = self.0.on_deregistered(collateral_id, stable_id, remaining_stablecoin_markets);
        let handled = if first.is_err() {
            first
        } else {
            self.1.on_deregistered(collateral_id, stable_id, remaining_stablecoin_markets)
        };
        assert(First::deregisters(
            old(self).0,
            *collateral_id,
            *stable_id,
            remaining_stablecoin_markets,
            first,
            self.0,
        ));
        handled
    }
}

} // verus!
