//! Stability Pool offsets against the head of the recovery list.
//!
//! Restricted to heads above par. One head per call, so that a single call never crosses into a
//! different recovery price.

use crate::arithmetic::FixedU128;
use crate::primitives::credit::{StableCredit, StableId};
use crate::primitives::error::DispatchError;
use crate::primitives::recovery_offset::RecoveryOffsetResult;
use crate::primitives::vault::VaultStatus;
use crate::primitives::vault_interface::{RedemptionSettlement, VaultInterface};
use crate::redemptions::error::{Error, Failure};
use crate::redemptions::pallet::Pallet;
use crate::redemptions::recovery::{
    law_recovery_plan_is_bounded, price_recovery, recovery_plan, Payable, RecoveryPlan,
};
use crate::redemptions::redemption::{step_settlement, Projection};
use crate::redemptions::types::{RecoveryOffsetQuote, RedemptionConfig};
use vstd::prelude::*;

verus! {

/// What an offset of the recovery head comes to.
#[derive(Clone, Copy, PartialEq, Eq, Debug)]
pub enum OffsetDecision<AccountId> {
    /// No head can be offset against.
    NoTarget,
    /// The head is below par.
    BelowPar,
    /// The head takes `debt` for `collateral`.
    Available {
        /// Owner of the head.
        owner: AccountId,
        /// Debt to cancel.
        debt: u128,
        /// Collateral to pay out.
        collateral: u128,
    },
}

/// The config and price of an offset: the stablecoin must be registered, and the oracle must quote
/// a price other than zero.
pub open spec fn offset_inputs_spec(
    config: Option<RedemptionConfig<u128>>,
    price: Result<FixedU128, DispatchError>,
) -> Result<(RedemptionConfig<u128>, FixedU128), Error> {
    match config {
        None => Err(Error::StablecoinNotRegistered),
        Some(config) => match price {
            Ok(price) => if price.inner == 0 {
                Err(Error::OracleUnavailable)
            } else {
                Ok((config, price))
            },
            Err(_) => Err(Error::OracleUnavailable),
        },
    }
}

/// The decision on a recovery head that is owned by `owner` and projects to `projection`.
pub open spec fn offset_of<AccountId>(
    config: Option<RedemptionConfig<u128>>,
    price: Result<FixedU128, DispatchError>,
    fund: Payable,
    owner: AccountId,
    projection: Projection,
    max_debt_to_cancel: u128,
) -> Result<OffsetDecision<AccountId>, Failure> {
    match offset_inputs_spec(config, price) {
        Err(error) => Err(Failure::Pallet(error)),
        Ok((config, price)) => match projection {
            Err(error) => Err(Failure::Dispatch(error)),
            Ok(snapshot) => Ok(
                match recovery_plan(snapshot, price, max_debt_to_cancel, config, fund) {
                    Err(_) => OffsetDecision::NoTarget,
                    Ok(RecoveryPlan::BelowPar { .. }) => OffsetDecision::BelowPar,
                    Ok(RecoveryPlan::AbovePar { debt, collateral }) => if debt == 0 {
                        OffsetDecision::NoTarget
                    } else {
                        OffsetDecision::Available { owner, debt, collateral }
                    },
                },
            ),
        },
    }
}

/// Prices an offset against the head that `owner` owns. The projection is read only once the
/// config and price are known to be usable.
pub fn decide_offset<AccountId>(
    config: Option<RedemptionConfig<u128>>,
    price: Result<FixedU128, DispatchError>,
    fund: Payable,
    owner: AccountId,
    projection: Projection,
    max_debt_to_cancel: u128,
) -> (decision: Result<OffsetDecision<AccountId>, Failure>)
    ensures
        decision == offset_of(config, price, fund, owner, projection, max_debt_to_cancel),
{
    let config = match config {
        Some(config) => config,
        None => {
            return Err(Failure::Pallet(Error::StablecoinNotRegistered));
        },
    };
    let price = match price {
        Ok(price) => price,
        Err(_) => {
            return Err(Failure::Pallet(Error::OracleUnavailable));
        },
    };
    if price.is_zero() {
        return Err(Failure::Pallet(Error::OracleUnavailable));
    }
    let snapshot = match projection {
        Ok(snapshot) => snapshot,
        Err(error) => {
            return Err(Failure::Dispatch(error));
        },
    };
    Ok(
        match price_recovery(&snapshot, price, max_debt_to_cancel, &config, fund) {
            Err(_) => OffsetDecision::NoTarget,
            Ok(RecoveryPlan::BelowPar { .. }) => OffsetDecision::BelowPar,
            Ok(RecoveryPlan::AbovePar { debt, collateral }) => {
                if debt == 0 {
                    OffsetDecision::NoTarget
                } else {
                    OffsetDecision::Available { owner, debt, collateral }
                }
            },
        },
    )
}

impl<CollateralId: Copy, AccountId: Copy> Pallet<CollateralId, AccountId> {
    /// Whether `decision` is what an offset comes to that reads the recovery head from `vaults`.
    pub open spec fn decides<V: VaultInterface<CollateralId = CollateralId, AccountId = AccountId>>(
        self,
        vaults: V,
        collateral_id: CollateralId,
        stable_id: StableId,
        price: Result<FixedU128, DispatchError>,
        fund: Payable,
        max_debt_to_cancel: u128,
        decision: Result<OffsetDecision<AccountId>, Failure>,
    ) -> bool {
        exists|target: Option<(AccountId, VaultStatus)>|
            {
                &&& #[trigger] call_ensures(
                    V::next_redemption_target,
                    (&vaults, collateral_id, stable_id, None::<AccountId>),
                    target,
                )
                &&& match target {
                    Some((owner, VaultStatus::FinalRecovery)) => exists|projection: Projection|
                        {
                            &&& #[trigger] call_ensures(
                                V::project_redemption_snapshot,
                                (&vaults, collateral_id, stable_id, owner),
                                projection,
                            )
                            &&& decision == offset_of(
                                self.config(stable_id),
                                price,
                                fund,
                                owner,
                                projection,
                                max_debt_to_cancel,
                            )
                        },
                    _ => decision == Ok::<OffsetDecision<AccountId>, Failure>(
                        OffsetDecision::NoTarget,
                    ),
                }
            }
    }

    /// Whether `quote` is what an offset of up to `max_debt_to_cancel` is quoted.
    pub open spec fn quotes_offset<
        V: VaultInterface<CollateralId = CollateralId, AccountId = AccountId>,
    >(
        self,
        vaults: V,
        collateral_id: CollateralId,
        stable_id: StableId,
        price: Result<FixedU128, DispatchError>,
        fund: Payable,
        max_debt_to_cancel: u128,
        quote: Result<RecoveryOffsetQuote<u128>, Failure>,
    ) -> bool {
        exists|decision: Result<OffsetDecision<AccountId>, Failure>|
            {
                &&& #[trigger] self.decides(
                    vaults,
                    collateral_id,
                    stable_id,
                    price,
                    fund,
                    max_debt_to_cancel,
                    decision,
                )
                &&& quote == (match decision {
                    Err(failure) => Err(failure),
                    Ok(OffsetDecision::NoTarget) => Ok(RecoveryOffsetQuote::NoTarget),
                    Ok(OffsetDecision::BelowPar) => Ok(RecoveryOffsetQuote::BelowPar),
                    Ok(OffsetDecision::Available { debt, .. }) => Ok(
                        RecoveryOffsetQuote::Available { debt },
                    ),
                })
            }
    }

    /// Whether offsetting `payment` against the recovery head can end with `executed`, and take the
    /// vaults from `before` to `after`.
    pub open spec fn executes_offset<
        V: VaultInterface<CollateralId = CollateralId, AccountId = AccountId>,
    >(
        self,
        before: V,
        collateral_id: CollateralId,
        price: Result<FixedU128, DispatchError>,
        fund: Payable,
        payment: StableCredit,
        collateral_recipient: AccountId,
        executed: Result<(RecoveryOffsetResult<u128>, StableCredit), Failure>,
        after: V,
    ) -> bool {
        exists|decision: Result<OffsetDecision<AccountId>, Failure>|
            {
                &&& #[trigger] self.decides(
                    before,
                    collateral_id,
                    payment.asset,
                    price,
                    fund,
                    payment.amount,
                    decision,
                )
                &&& match decision {
                    Err(failure) => executed == Err::<
                        (RecoveryOffsetResult<u128>, StableCredit),
                        Failure,
                    >(failure) && after == before,
                    Ok(OffsetDecision::NoTarget) => executed == Ok::<
                        (RecoveryOffsetResult<u128>, StableCredit),
                        Failure,
                    >((RecoveryOffsetResult::NoTarget, payment)) && after == before,
                    Ok(OffsetDecision::BelowPar) => executed == Ok::<
                        (RecoveryOffsetResult<u128>, StableCredit),
                        Failure,
                    >((RecoveryOffsetResult::BelowPar, payment)) && after == before,
                    Ok(OffsetDecision::Available { owner, debt, collateral }) => {
                        &&& V::settles(
                            before,
                            collateral_id,
                            payment.asset,
                            owner,
                            collateral_recipient,
                            step_settlement(payment.asset, debt, collateral),
                            match executed {
                                Ok(_) => Ok(()),
                                Err(failure) => Err(failure->Dispatch_0),
                            },
                            after,
                        )
                        &&& match executed {
                            Ok((result, change)) => {
                                &&& result == RecoveryOffsetResult::Applied {
                                    collateral_out: collateral,
                                }
                                &&& change.asset == payment.asset
                                &&& change.amount == payment.amount - debt
                            },
                            Err(failure) => failure is Dispatch,
                        }
                    },
                }
            }
    }

    /// Locates and prices the recovery head for an offset.
    pub fn offset_decision<V: VaultInterface<CollateralId = CollateralId, AccountId = AccountId>>(
        &self,
        vaults: &V,
        collateral_id: CollateralId,
        stable_id: StableId,
        price: Result<FixedU128, DispatchError>,
        fund: Payable,
        max_debt_to_cancel: u128,
    ) -> (decision: Result<OffsetDecision<AccountId>, Failure>)
        ensures
            self.decides(
                *vaults,
                collateral_id,
                stable_id,
                price,
                fund,
                max_debt_to_cancel,
                decision,
            ),
            decision matches Ok(OffsetDecision::Available { debt, .. }) ==> 0 < debt
                <= max_debt_to_cancel,
    {
        let next_target = V::next_redemption_target;
        let owner = match next_target(vaults, collateral_id, stable_id, None) {
            Some((owner, VaultStatus::FinalRecovery)) => owner,
            _ => {
                return Ok(OffsetDecision::NoTarget);
            },
        };
        let project = V::project_redemption_snapshot;
        let projection = project(vaults, collateral_id, stable_id, owner);
        assert(call_ensures(
            V::project_redemption_snapshot,
            (vaults, collateral_id, stable_id, owner),
            projection,
        ));
        let config = self.configs.get(stable_id);
        proof {
            if let (Some(config), Ok(price), Ok(snapshot)) = (config, price, projection) {
                law_recovery_plan_is_bounded(snapshot, price, max_debt_to_cancel, config, fund);
            }
        }
        decide_offset(config, price, fund, owner, projection, max_debt_to_cancel)
    }

    /// Quotes how much debt a Stability Pool may cancel against the recovery head.
    pub fn preview_recovery_offset<
        V: VaultInterface<CollateralId = CollateralId, AccountId = AccountId>,
    >(
        &self,
        vaults: &V,
        collateral_id: CollateralId,
        stable_id: StableId,
        price: Result<FixedU128, DispatchError>,
        fund: Payable,
        max_debt_to_cancel: u128,
    ) -> (quote: Result<RecoveryOffsetQuote<u128>, Failure>)
        ensures
            self.quotes_offset(
                *vaults,
                collateral_id,
                stable_id,
                price,
                fund,
                max_debt_to_cancel,
                quote,
            ),
    {
        match self.offset_decision(
            vaults,
            collateral_id,
            stable_id,
            price,
            fund,
            max_debt_to_cancel,
        ) {
            Err(failure) => Err(failure),
            Ok(OffsetDecision::NoTarget) => Ok(RecoveryOffsetQuote::NoTarget),
            Ok(OffsetDecision::BelowPar) => Ok(RecoveryOffsetQuote::BelowPar),
            Ok(OffsetDecision::Available { debt, .. }) => Ok(
                RecoveryOffsetQuote::Available { debt },
            ),
        }
    }

    /// Cancels head debt against `payment` and delivers the priced collateral to
    /// `collateral_recipient`.
    ///
    /// The credit's value is the budget, and its asset selects the market's stablecoin. The
    /// unconsumed change comes back with the result: the whole payment where nothing was applied.
    /// No fee is charged, and the dynamic fee does not move.
    pub fn execute_recovery_offset<
        V: VaultInterface<CollateralId = CollateralId, AccountId = AccountId>,
    >(
        &self,
        vaults: &mut V,
        collateral_id: CollateralId,
        price: Result<FixedU128, DispatchError>,
        fund: Payable,
        payment: StableCredit,
        collateral_recipient: AccountId,
    ) -> (executed: Result<(RecoveryOffsetResult<u128>, StableCredit), Failure>)
        ensures
            self.executes_offset(
                *old(vaults),
                collateral_id,
                price,
                fund,
                payment,
                collateral_recipient,
                executed,
                *final(vaults),
            ),
    {
        // The payment's own asset names the market: a coin mismatch cannot be expressed.
        let stable_id = payment.asset();
        let decision = self.offset_decision(
            vaults,
            collateral_id,
            stable_id,
            price,
            fund,
            payment.peek(),
        );
        match decision {
            Err(failure) => Err(failure),
            Ok(OffsetDecision::NoTarget) => Ok((RecoveryOffsetResult::NoTarget, payment)),
            Ok(OffsetDecision::BelowPar) => Ok((RecoveryOffsetResult::BelowPar, payment)),
            Ok(OffsetDecision::Available { owner, debt, collateral }) => {
                let mut payment = payment;
                let debt_payment = payment.extract(debt);
                let settlement = RedemptionSettlement {
                    debt_payment,
                    collateral_to_recipient: collateral,
                };
                assert(settlement == step_settlement(stable_id, debt, collateral));
                let settled = vaults.redeem_step(
                    collateral_id,
                    stable_id,
                    owner,
                    collateral_recipient,
                    settlement,
                );
                assert(settled is Ok ==> settled->Ok_0 == ());
                match settled {
                    Ok(_) => Ok(
                        (RecoveryOffsetResult::Applied { collateral_out: collateral }, payment),
                    ),
                    Err(error) => Err(Failure::Dispatch(error)),
                }
            },
        }
    }
}

/// Whether the vault engine answers each question about a market's recovery head in one way only, as
/// an engine does that goes by its state alone.
pub open spec fn reads_one_head<V: VaultInterface>(
    vaults: V,
    collateral_id: V::CollateralId,
    stable_id: StableId,
) -> bool {
    &&& forall|a: Option<(V::AccountId, VaultStatus)>, b: Option<(V::AccountId, VaultStatus)>|
        #[trigger] call_ensures(
            V::next_redemption_target,
            (&vaults, collateral_id, stable_id, None::<V::AccountId>),
            a,
        ) && #[trigger] call_ensures(
            V::next_redemption_target,
            (&vaults, collateral_id, stable_id, None::<V::AccountId>),
            b,
        ) ==> a == b
    &&& forall|owner: V::AccountId, a: Projection, b: Projection|
        #[trigger] call_ensures(
            V::project_redemption_snapshot,
            (&vaults, collateral_id, stable_id, owner),
            a,
        ) && #[trigger] call_ensures(
            V::project_redemption_snapshot,
            (&vaults, collateral_id, stable_id, owner),
            b,
        ) ==> a == b
}

/// An executed offset honours its quote on the same state: without a target, or with one below par,
/// the whole payment comes back and the vaults stay as they were; an offset that goes through
/// cancels exactly the quoted debt, without a fee, and returns the rest of the payment.
pub proof fn law_executed_offset_honours_its_quote<
    CollateralId: Copy,
    AccountId: Copy,
    V: VaultInterface<CollateralId = CollateralId, AccountId = AccountId>,
>(
    pallet: Pallet<CollateralId, AccountId>,
    before: V,
    collateral_id: CollateralId,
    price: Result<FixedU128, DispatchError>,
    fund: Payable,
    payment: StableCredit,
    collateral_recipient: AccountId,
    quote: Result<RecoveryOffsetQuote<u128>, Failure>,
    executed: Result<(RecoveryOffsetResult<u128>, StableCredit), Failure>,
    after: V,
)
    requires
        reads_one_head(before, collateral_id, payment.asset),
        pallet.quotes_offset(
            before,
            collateral_id,
            payment.asset,
            price,
            fund,
            payment.amount,
            quote,
        ),
        pallet.executes_offset(
            before,
            collateral_id,
            price,
            fund,
            payment,
            collateral_recipient,
            executed,
            after,
        ),
    ensures
        match quote {
            Err(failure) => executed == Err::<(RecoveryOffsetResult<u128>, StableCredit), Failure>(
                failure,
            ) && after == before,
            Ok(RecoveryOffsetQuote::NoTarget) => executed == Ok::<
                (RecoveryOffsetResult<u128>, StableCredit),
                Failure,
            >((RecoveryOffsetResult::NoTarget, payment)) && after == before,
            Ok(RecoveryOffsetQuote::BelowPar) => executed == Ok::<
                (RecoveryOffsetResult<u128>, StableCredit),
                Failure,
            >((RecoveryOffsetResult::BelowPar, payment)) && after == before,
            Ok(RecoveryOffsetQuote::Available { debt }) => executed matches Ok((result, change))
                ==> {
                &&& result is Applied
                &&& change.asset == payment.asset
                &&& payment.amount - change.amount == debt
            },
        },
{
    let previewed = choose|decision: Result<OffsetDecision<AccountId>, Failure>|
        {
            &&& #[trigger] pallet.decides(
                before,
                collateral_id,
                payment.asset,
                price,
                fund,
                payment.amount,
                decision,
            )
            &&& quote == (match decision {
                Err(failure) => Err(failure),
                Ok(OffsetDecision::NoTarget) => Ok(RecoveryOffsetQuote::NoTarget),
                Ok(OffsetDecision::BelowPar) => Ok(RecoveryOffsetQuote::BelowPar),
                Ok(OffsetDecision::Available { debt, .. }) => Ok(
                    RecoveryOffsetQuote::Available { debt },
                ),
            })
        };
    assert forall|decision: Result<OffsetDecision<AccountId>, Failure>| #[trigger]
        pallet.decides(
            before,
            collateral_id,
            payment.asset,
            price,
            fund,
            payment.amount,
            decision,
        ) implies decision == previewed by {}
}

} // verus!
