//! Stored redemption policy and fee state, and the operations on them.
//!
//! Redemption moves stablecoin that other ledgers hold. An operation that does so is split where
//! the stablecoin moves: [`Pallet::do_redeem`] decides what to debit, [`Pallet::settle_recovery`]
//! or [`Pallet::settle_ordinary`] spends what was debited, and [`Pallet::finalize_ordinary`]
//! completes the redemption once the fee was routed and the change refunded. A failure at any
//! stage fails the whole redemption, and the caller undoes what the earlier stages did.

use crate::arithmetic::{least, saturated, ArithmeticError, FixedU128};
use crate::primitives::credit::{StableCredit, StableId};
use crate::primitives::error::DispatchError;
use crate::primitives::vault::VaultStatus;
use crate::primitives::vault_interface::{RedemptionSettlement, VaultInterface};
use crate::redemptions::error::{Error, Failure};
use crate::redemptions::fees::{bought, scale_floor, scaled_floor, DynamicFeeCurve};
use crate::redemptions::recovery::{
    price_recovery, recovery_order, recovery_plan, redeem_recovery, Payable, RecoveryOrder,
    RecoveryPlan, Snapshot,
};
use crate::redemptions::redemption::{
    breaks_off, exact_credit, execute_ordinary_walk, fee_of, ordinary_debt_budget, ordinary_quote,
    quote_ordinary, walked, walks, FeeInputs, OrdinaryResult, Projection, Trail, WalkContext,
};
use crate::redemptions::types::{
    Millis, RecoveryRegime, RedemptionConfig, RedemptionQuote, RedemptionState, RedemptionTerms,
};
use crate::storage::StorageMap;
use vstd::prelude::*;

verus! {

/// What the redemption logic reports.
#[derive(Clone, Copy, PartialEq, Eq, Debug)]
pub enum Event<CollateralId, AccountId> {
    /// One or more ordinary (or dormant-target) vaults were redeemed.
    OrdinaryRedemptionExecuted {
        /// Collateral of the market.
        collateral_id: CollateralId,
        /// Stablecoin of the market.
        stable_id: StableId,
        /// Account that paid the stablecoin.
        redeemer: AccountId,
        /// Account that received collateral.
        recipient: AccountId,
        /// Stablecoin burned against vault debt.
        stable_burned: u128,
        /// Collateral paid to the recipient.
        collateral_out: u128,
        /// Stablecoin fee charged to the redeemer.
        fee: u128,
        /// Number of vaults visited.
        steps: u32,
    },
    /// A `FinalRecovery` vault was (partially) settled.
    RecoveryRedemptionExecuted {
        /// Collateral of the market.
        collateral_id: CollateralId,
        /// Stablecoin of the market.
        stable_id: StableId,
        /// Account that paid the stablecoin.
        redeemer: AccountId,
        /// Account that received collateral.
        recipient: AccountId,
        /// Owner of the settled vault.
        vault_owner: AccountId,
        /// Stablecoin the redeemer burned against vault debt.
        stable_burned: u128,
        /// Insurance Fund cover burned against the same vault's debt, in the same settlement.
        /// Nonzero only for a full below-par fill.
        insurance_cover: u128,
        /// Collateral paid to the recipient.
        collateral_out: u128,
        /// Pricing regime applied to the settlement.
        regime: RecoveryRegime,
    },
    /// The stablecoin's dynamic fee moved after an ordinary redemption.
    RedemptionDynamicFeeUpdated {
        /// The stablecoin.
        stable_id: StableId,
        /// Dynamic fee before the redemption.
        old_dynamic_fee: FixedU128,
        /// Dynamic fee after the redemption.
        new_dynamic_fee: FixedU128,
    },
    /// A stablecoin's redemption config was replaced.
    RedemptionConfigUpdated {
        /// The stablecoin.
        stable_id: StableId,
    },
}

/// What a redemption reads from the oracle, the clock and the stablecoin ledger.
#[derive(Clone, Copy, PartialEq, Eq, Debug)]
pub struct Readings {
    /// The oracle's quote for the collateral.
    pub price: Result<FixedU128, DispatchError>,
    /// The time.
    pub now: Millis,
    /// What the redeemer can pay.
    pub redeemer: Payable,
    /// What the stablecoin's Insurance Fund can pay.
    pub fund: Payable,
}

/// Ordinary redemption that is ready to be paid for.
#[derive(Clone, Copy, PartialEq, Eq, Debug)]
pub struct OrdinaryOrder<AccountId> {
    /// Owner of the walk's first target.
    pub first_owner: AccountId,
    /// Status of the walk's first target.
    pub first_status: VaultStatus,
    /// Fee inputs of the redemption.
    pub fee_inputs: FeeInputs,
    /// What the redeemer asked for.
    pub terms: RedemptionTerms<u128>,
    /// Debt that the walk may cancel.
    pub debt_budget: u128,
    /// Fee reserved for the whole debt budget.
    pub planned_fee: u128,
    /// Vaults that the walk may visit.
    pub step_cap: u32,
}

impl<AccountId> OrdinaryOrder<AccountId> {
    /// What the redeemer is debited.
    pub open spec fn cost(self) -> int {
        self.debt_budget + self.planned_fee
    }

    /// What the redeemer is debited, in a way that preserves their account.
    pub fn debit(&self) -> (amount: u128)
        requires
            self.cost() <= u128::MAX,
        ensures
            amount == self.cost(),
    {
        self.debt_budget + self.planned_fee
    }
}

/// Redemption that is ready to be paid for.
#[derive(Clone, Copy, PartialEq, Eq, Debug)]
pub enum RedeemOrder<AccountId> {
    /// Settlement of the recovery head.
    Recovery(RecoveryOrder<AccountId>),
    /// Walk over ordinary vaults.
    Ordinary(OrdinaryOrder<AccountId>),
}

/// What an ordinary redemption came to.
#[derive(Clone, Copy, PartialEq, Eq, Debug)]
pub struct OrdinaryReceipt {
    /// Progress of the walk.
    pub result: OrdinaryResult,
    /// Fee charged.
    pub fee: u128,
}

/// What an ordinary order comes to whose walk visits `snapshots`: the progress of the walk, and the
/// fee on the debt that it cancelled, at most the planned one.
pub open spec fn receipt_of<AccountId>(
    order: OrdinaryOrder<AccountId>,
    price: FixedU128,
    snapshots: Seq<Snapshot>,
) -> OrdinaryReceipt {
    let result = walked(snapshots, price, OrdinaryResult::start(order.debt_budget));
    OrdinaryReceipt {
        result,
        fee: least(
            fee_of(order.fee_inputs.curve)(result.debt as int),
            order.planned_fee as int,
        ) as u128,
    }
}

/// Whether a receipt's collateral is at least the floor of its order's terms, scaled to what was spent
/// of the most that they allow.
pub open spec fn meets_floor<AccountId>(
    order: OrdinaryOrder<AccountId>,
    receipt: OrdinaryReceipt,
) -> bool {
    receipt.result.collateral >= scaled_floor(
        order.terms.min_collateral_out as int,
        saturated(receipt.result.debt + receipt.fee),
        order.terms.max_stable_to_spend as int,
        u128::MAX as int,
    )
}

/// The config and price of a redemption of up to `max_stable_to_spend`.
///
/// The stablecoin must be registered, the budget must reach the minimum, and the oracle must quote
/// a price other than zero, in this order.
pub open spec fn redemption_inputs_spec(
    config: Option<RedemptionConfig<u128>>,
    max_stable_to_spend: u128,
    price: Result<FixedU128, DispatchError>,
) -> Result<(RedemptionConfig<u128>, FixedU128), Error> {
    match config {
        None => Err(Error::StablecoinNotRegistered),
        Some(config) => if max_stable_to_spend < config.minimum_redemption_amount {
            Err(Error::BelowMinimumRedemptionAmount)
        } else {
            match price {
                Ok(price) => if price.inner == 0 {
                    Err(Error::OracleUnavailable)
                } else {
                    Ok((config, price))
                },
                Err(_) => Err(Error::OracleUnavailable),
            }
        },
    }
}

/// The curve of a redemption at `now`.
pub open spec fn curve_at(
    state: RedemptionState,
    now: Millis,
    config: RedemptionConfig<u128>,
    stablecoin_debt: u128,
) -> DynamicFeeCurve {
    DynamicFeeCurve {
        decayed: FixedU128 { inner: state.fee_at(now, config) as u128 },
        debt: stablecoin_debt,
        divisor: config.dynamic_fee_increase_divisor,
        dynamic_fee_ceiling: config.dynamic_fee_ceiling,
        base_fee: config.base_fee,
        fee_ceiling: config.fee_ceiling,
    }
}

/// The order of an ordinary redemption, or the reason for which the budget is too short.
///
/// A short budget is the terms' fault when the balance covers them, else the balance's.
pub open spec fn ordinary_order<AccountId>(
    first_target: (AccountId, VaultStatus),
    config: RedemptionConfig<u128>,
    fee_inputs: FeeInputs,
    terms: RedemptionTerms<u128>,
    payable: u128,
    step_cap: u32,
) -> Result<OrdinaryOrder<AccountId>, Error> {
    let debt_budget = bought(
        fee_of(fee_inputs.curve),
        least(terms.max_stable_to_spend as int, payable as int),
    );
    if debt_budget < config.minimum_redemption_amount {
        if payable >= terms.max_stable_to_spend {
            Err(Error::BelowMinimumRedemptionAmount)
        } else {
            Err(Error::InsufficientStableBalance)
        }
    } else {
        Ok(
            OrdinaryOrder {
                first_owner: first_target.0,
                first_status: first_target.1,
                fee_inputs,
                terms,
                debt_budget: debt_budget as u128,
                planned_fee: fee_of(fee_inputs.curve)(debt_budget) as u128,
                step_cap,
            },
        )
    }
}

/// Sizes an ordinary redemption: the most debt whose sum with its fee fits the terms, and what the
/// redeemer can pay while staying at or above the stablecoin's minimum balance.
pub fn redeem_ordinary<AccountId>(
    first_target: (AccountId, VaultStatus),
    config: &RedemptionConfig<u128>,
    fee_inputs: &FeeInputs,
    terms: &RedemptionTerms<u128>,
    redeemer: Payable,
    step_cap: u32,
) -> (order: Result<OrdinaryOrder<AccountId>, Error>)
    ensures
        order == ordinary_order(
            first_target,
            *config,
            *fee_inputs,
            *terms,
            redeemer.preserved,
            step_cap,
        ),
        order matches Ok(order) ==> {
            &&& order.cost() <= terms.max_stable_to_spend
            &&& order.cost() <= redeemer.preserved
        },
{
    let payable = redeemer.preserved;
    let stable_budget = if terms.max_stable_to_spend <= payable {
        terms.max_stable_to_spend
    } else {
        payable
    };
    let debt_budget = ordinary_debt_budget(fee_inputs, stable_budget);
    if debt_budget < config.minimum_redemption_amount {
        return if payable >= terms.max_stable_to_spend {
            Err(Error::BelowMinimumRedemptionAmount)
        } else {
            Err(Error::InsufficientStableBalance)
        };
    }
    let planned_fee = fee_inputs.curve.fee(debt_budget);
    Ok(
        OrdinaryOrder {
            first_owner: first_target.0,
            first_status: first_target.1,
            fee_inputs: *fee_inputs,
            terms: *terms,
            debt_budget,
            planned_fee,
            step_cap,
        },
    )
}

/// The settlement that what was debited for a recovery order pays for.
///
/// Each credit must carry exactly what the order says, and both must be of one stablecoin. A
/// missing cover means that the Insurance Fund could not be debited.
pub open spec fn recovery_payment<AccountId>(
    order: RecoveryOrder<AccountId>,
    debt_payment: StableCredit,
    cover: Option<StableCredit>,
) -> Result<RedemptionSettlement<StableCredit, u128>, Failure> {
    let covered = order.plan.covered();
    if debt_payment.amount != order.plan.paid() {
        Err(Failure::Dispatch(DispatchError::Corruption))
    } else {
        match cover {
            None => if covered != 0 {
                Err(Failure::Pallet(Error::InsuranceFundWithdrawFailed))
            } else {
                Ok(
                    RedemptionSettlement {
                        debt_payment,
                        collateral_to_recipient: order.plan.received(),
                    },
                )
            },
            Some(cover) => if cover.amount != covered {
                Err(Failure::Dispatch(DispatchError::Corruption))
            } else if cover.asset != debt_payment.asset {
                Err(Failure::Pallet(Error::InsuranceFundWithdrawFailed))
            } else {
                Ok(
                    RedemptionSettlement {
                        debt_payment: StableCredit {
                            asset: debt_payment.asset,
                            amount: saturated(debt_payment.amount + cover.amount) as u128,
                        },
                        collateral_to_recipient: order.plan.received(),
                    },
                )
            },
        }
    }
}

/// Merges what was debited for a recovery order into the settlement that it pays for.
pub fn recovery_settlement<AccountId>(
    order: &RecoveryOrder<AccountId>,
    debt_payment: StableCredit,
    cover: Option<StableCredit>,
) -> (settlement: Result<RedemptionSettlement<StableCredit, u128>, Failure>)
    ensures
        settlement == recovery_payment(*order, debt_payment, cover),
{
    let insurance_cover = order.plan.insurance_cover();
    let mut debt_payment = match exact_credit(debt_payment, order.plan.debt()) {
        Ok(debt_payment) => debt_payment,
        Err(error) => {
            return Err(Failure::Dispatch(error));
        },
    };
    match cover {
        None => {
            if insurance_cover != 0 {
                return Err(Failure::Pallet(Error::InsuranceFundWithdrawFailed));
            }
        },
        Some(cover) => {
            let cover = match exact_credit(cover, insurance_cover) {
                Ok(cover) => cover,
                Err(error) => {
                    return Err(Failure::Dispatch(error));
                },
            };
            match debt_payment.subsume(cover) {
                Ok(_) => {},
                Err(_) => {
                    return Err(Failure::Pallet(Error::InsuranceFundWithdrawFailed));
                },
            }
        },
    }
    Ok(RedemptionSettlement { debt_payment, collateral_to_recipient: order.plan.collateral() })
}

/// Whether `projection` is what the vault engine projects for its `nth` quote target.
pub open spec fn projects<V: VaultInterface>(
    vaults: V,
    collateral_id: V::CollateralId,
    stable_id: StableId,
    nth: int,
    projection: Projection,
) -> bool {
    exists|owner: V::AccountId|
        {
            &&& call_ensures(
                V::redemption_quote_targets,
                (&vaults, collateral_id, stable_id, nth as u32),
                Some(owner),
            )
            &&& #[trigger] call_ensures(
                V::project_redemption_snapshot,
                (&vaults, collateral_id, stable_id, owner),
                projection,
            )
        }
}

/// Whether `targets` are the first `count` quote targets of the vault engine, or fewer where it
/// has no more or where one does not project.
pub open spec fn projections_of<V: VaultInterface>(
    vaults: V,
    collateral_id: V::CollateralId,
    stable_id: StableId,
    count: u32,
    targets: Seq<Projection>,
) -> bool {
    &&& targets.len() <= count
    &&& forall|nth: int|
        0 <= nth < targets.len() ==> projects(
            vaults,
            collateral_id,
            stable_id,
            nth,
            #[trigger] targets[nth],
        )
    &&& targets.len() < count ==> {
        ||| targets.len() > 0 && targets.last() is Err
        ||| call_ensures(
            V::redemption_quote_targets,
            (&vaults, collateral_id, stable_id, targets.len() as u32),
            None::<V::AccountId>,
        )
    }
}

/// Projects the first `count` quote targets of the vault engine, up to one that does not project.
fn project_targets<V: VaultInterface>(
    vaults: &V,
    collateral_id: V::CollateralId,
    stable_id: StableId,
    count: u32,
) -> (targets: Vec<Projection>)
    ensures
        projections_of(*vaults, collateral_id, stable_id, count, targets@),
{
    let mut targets: Vec<Projection> = Vec::new();
    let mut nth: u32 = 0;
    let target_of = V::redemption_quote_targets;
    let project = V::project_redemption_snapshot;
    while nth < count
        invariant
            target_of == V::redemption_quote_targets,
            project == V::project_redemption_snapshot,
            nth == targets@.len() <= count,
            forall|i: int|
                0 <= i < targets@.len() ==> projects(
                    *vaults,
                    collateral_id,
                    stable_id,
                    i,
                    #[trigger] targets@[i],
                ),
        decreases count - nth,
    {
        let owner = match target_of(vaults, collateral_id, stable_id, nth) {
            Some(owner) => owner,
            None => {
                return targets;
            },
        };
        let projection = project(vaults, collateral_id, stable_id, owner);
        assert(call_ensures(
            V::project_redemption_snapshot,
            (vaults, collateral_id, stable_id, owner),
            projection,
        ));
        assert(projects(*vaults, collateral_id, stable_id, nth as int, projection));
        targets.push(projection);
        nth = nth + 1;
        if projection.is_err() {
            return targets;
        }
    }
    targets
}

/// Redemption policy and fee state of every stablecoin.
#[derive(Debug)]
pub struct Pallet<CollateralId, AccountId> {
    /// Redemption policy by stablecoin.
    ///
    /// One policy governs every collateral market that issues the coin. A row exists exactly while
    /// at least one market issues it.
    pub configs: StorageMap<RedemptionConfig<u128>>,
    /// Dynamic fee state by stablecoin, so that redeeming against one collateral raises the fee on
    /// every other collateral that issues the same coin.
    pub states: StorageMap<RedemptionState>,
    /// What was reported, in order.
    pub events: Vec<Event<CollateralId, AccountId>>,
    /// Maximum number of vaults a redemption may visit.
    pub max_redemption_steps: u32,
}

impl<CollateralId: Copy, AccountId: Copy> Pallet<CollateralId, AccountId> {
    /// The policy of a stablecoin.
    pub open spec fn config(self, stable_id: StableId) -> Option<RedemptionConfig<u128>> {
        if self.configs@.contains_key(stable_id) {
            Some(self.configs@[stable_id])
        } else {
            None
        }
    }

    /// The fee state of a stablecoin, zero before its first redemption.
    pub open spec fn state(self, stable_id: StableId) -> RedemptionState {
        if self.states@.contains_key(stable_id) {
            self.states@[stable_id]
        } else {
            RedemptionState { dynamic_fee: FixedU128 { inner: 0 }, last_fee_operation: 0 }
        }
    }

    /// The number of vaults a redemption may visit when its caller asks for `max_steps`, with zero
    /// for the runtime ceiling.
    pub open spec fn step_cap(self, max_steps: u32) -> u32 {
        if max_steps == 0 || max_steps > self.max_redemption_steps {
            self.max_redemption_steps
        } else {
            max_steps
        }
    }

    /// Fee inputs of a redemption of a stablecoin at `now`.
    pub open spec fn fee_inputs_spec(
        self,
        stable_id: StableId,
        config: RedemptionConfig<u128>,
        now: Millis,
        stablecoin_debt: u128,
    ) -> FeeInputs {
        FeeInputs {
            state: self.state(stable_id),
            now,
            curve: curve_at(self.state(stable_id), now, config, stablecoin_debt),
        }
    }

    /// Whether `self` differs from `before` in nothing that is stored.
    pub open spec fn unchanged(self, before: Self) -> bool {
        &&& self.configs@ == before.configs@
        &&& self.states@ == before.states@
        &&& self.events@ == before.events@
        &&& self.max_redemption_steps == before.max_redemption_steps
    }

    /// No stablecoins, with redemptions that visit at most `max_redemption_steps` vaults.
    ///
    /// A zero cap would keep the walk from ever running, so that every redemption failed.
    pub fn new(max_redemption_steps: u32) -> (pallet: Self)
        requires
            max_redemption_steps > 0,
        ensures
            pallet.configs@ == Map::<u64, RedemptionConfig<u128>>::empty(),
            pallet.states@ == Map::<u64, RedemptionState>::empty(),
            pallet.events@ == Seq::<Event<CollateralId, AccountId>>::empty(),
            pallet.max_redemption_steps == max_redemption_steps,
    {
        Pallet {
            configs: StorageMap::new(),
            states: StorageMap::new(),
            events: Vec::new(),
            max_redemption_steps,
        }
    }

    /// `0` means "use the runtime ceiling".
    pub fn effective_step_cap(&self, max_steps: u32) -> (cap: u32)
        ensures
            cap == self.step_cap(max_steps),
    {
        if max_steps == 0 || max_steps > self.max_redemption_steps {
            self.max_redemption_steps
        } else {
            max_steps
        }
    }

    /// The stored fee state of a stablecoin.
    pub fn redemption_state(&self, stable_id: StableId) -> (state: RedemptionState)
        ensures
            state == self.state(stable_id),
    {
        match self.states.get(stable_id) {
            Some(state) => state,
            None => RedemptionState::default(),
        }
    }

    /// The config and price of a redemption of up to `max_stable_to_spend`.
    fn redemption_inputs(
        &self,
        stable_id: StableId,
        max_stable_to_spend: u128,
        price: Result<FixedU128, DispatchError>,
    ) -> (inputs: Result<(RedemptionConfig<u128>, FixedU128), Error>)
        ensures
            inputs == redemption_inputs_spec(self.config(stable_id), max_stable_to_spend, price),
    {
        let config = match self.configs.get(stable_id) {
            Some(config) => config,
            None => {
                return Err(Error::StablecoinNotRegistered);
            },
        };
        // A budget below the minimum cannot buy it however small the fee.
        if max_stable_to_spend < config.minimum_redemption_amount {
            return Err(Error::BelowMinimumRedemptionAmount);
        }
        match price {
            Ok(price) => {
                if price.is_zero() {
                    Err(Error::OracleUnavailable)
                } else {
                    Ok((config, price))
                }
            },
            Err(_) => Err(Error::OracleUnavailable),
        }
    }

    /// The fee inputs of a redemption at `now`.
    fn fee_inputs(
        &self,
        stable_id: StableId,
        config: &RedemptionConfig<u128>,
        now: Millis,
        stablecoin_debt: u128,
    ) -> (inputs: Result<FeeInputs, ArithmeticError>)
        ensures
            inputs == Ok::<FeeInputs, ArithmeticError>(
                self.fee_inputs_spec(stable_id, *config, now, stablecoin_debt),
            ),
    {
        let state = self.redemption_state(stable_id);
        match DynamicFeeCurve::try_new(state.dynamic_fee_at(now, config), stablecoin_debt, config) {
            Ok(curve) => Ok(FeeInputs { state, now, curve }),
            Err(error) => Err(error),
        }
    }

    /// The order of a redemption whose first target is `target`.
    ///
    /// `projection` is the target's snapshot and `stablecoin_debt` the stablecoin's debt; each is
    /// read only where it is needed.
    pub open spec fn redeem_order(
        self,
        stable_id: StableId,
        config: RedemptionConfig<u128>,
        price: FixedU128,
        terms: RedemptionTerms<u128>,
        max_steps: u32,
        readings: Readings,
        target: (AccountId, VaultStatus),
        projection: Projection,
        stablecoin_debt: u128,
    ) -> Result<RedeemOrder<AccountId>, Failure> {
        if target.1 == VaultStatus::FinalRecovery {
            match projection {
                Err(error) => Err(Failure::Dispatch(error)),
                Ok(snapshot) => match recovery_order(
                    target.0,
                    snapshot,
                    price,
                    config,
                    terms,
                    readings.redeemer,
                    readings.fund,
                ) {
                    Ok(order) => Ok(RedeemOrder::Recovery(order)),
                    Err(error) => Err(Failure::Pallet(error)),
                },
            }
        } else {
            match ordinary_order(
                target,
                config,
                self.fee_inputs_spec(stable_id, config, readings.now, stablecoin_debt),
                terms,
                readings.redeemer.preserved,
                self.step_cap(max_steps),
            ) {
                Ok(order) => Ok(RedeemOrder::Ordinary(order)),
                Err(error) => Err(Failure::Pallet(error)),
            }
        }
    }

    /// Whether `order` is what a redemption comes to that reads its first target from `vaults`.
    pub open spec fn orders<V: VaultInterface<CollateralId = CollateralId, AccountId = AccountId>>(
        self,
        vaults: V,
        collateral_id: CollateralId,
        stable_id: StableId,
        config: RedemptionConfig<u128>,
        price: FixedU128,
        terms: RedemptionTerms<u128>,
        max_steps: u32,
        readings: Readings,
        target: Option<(AccountId, VaultStatus)>,
        order: Result<RedeemOrder<AccountId>, Failure>,
    ) -> bool {
        match target {
            None => order == Err::<RedeemOrder<AccountId>, Failure>(
                Failure::Pallet(Error::NoRedeemableVault),
            ),
            Some(target) => exists|projection: Projection, debt: u128|
                {
                    &&& target.1 == VaultStatus::FinalRecovery ==> call_ensures(
                        V::project_redemption_snapshot,
                        (&vaults, collateral_id, stable_id, target.0),
                        projection,
                    )
                    &&& target.1 != VaultStatus::FinalRecovery ==> call_ensures(
                        V::stablecoin_debt,
                        (&vaults, stable_id),
                        debt,
                    )
                    &&& order == #[trigger] self.redeem_order(
                        stable_id,
                        config,
                        price,
                        terms,
                        max_steps,
                        readings,
                        target,
                        projection,
                        debt,
                    )
                },
        }
    }

    /// Decides a redemption: what to debit from the redeemer and the Insurance Fund, and what it
    /// pays for.
    ///
    /// The head of the recovery list is settled before any ordinary vault.
    pub fn do_redeem<V: VaultInterface<CollateralId = CollateralId, AccountId = AccountId>>(
        &self,
        vaults: &V,
        collateral_id: CollateralId,
        stable_id: StableId,
        terms: &RedemptionTerms<u128>,
        max_steps: u32,
        readings: &Readings,
    ) -> (order: Result<RedeemOrder<AccountId>, Failure>)
        ensures
            match redemption_inputs_spec(
                self.config(stable_id),
                terms.max_stable_to_spend,
                readings.price,
            ) {
                Err(error) => order == Err::<RedeemOrder<AccountId>, Failure>(
                    Failure::Pallet(error),
                ),
                Ok((config, price)) => exists|target: Option<(AccountId, VaultStatus)>|
                    {
                        &&& #[trigger] call_ensures(
                            V::next_redemption_target,
                            (vaults, collateral_id, stable_id, None::<AccountId>),
                            target,
                        )
                        &&& self.orders(
                            *vaults,
                            collateral_id,
                            stable_id,
                            config,
                            price,
                            *terms,
                            max_steps,
                            *readings,
                            target,
                            order,
                        )
                    },
            },
            order matches Ok(RedeemOrder::Ordinary(order)) ==> order.cost()
                <= terms.max_stable_to_spend && order.cost() <= readings.redeemer.preserved,
    {
        let (config, price) = match self.redemption_inputs(
            stable_id,
            terms.max_stable_to_spend,
            readings.price,
        ) {
            Ok(inputs) => inputs,
            Err(error) => {
                return Err(Failure::Pallet(error));
            },
        };
        let next_target = V::next_redemption_target;
        let target = match next_target(vaults, collateral_id, stable_id, None) {
            Some(target) => target,
            None => {
                return Err(Failure::Pallet(Error::NoRedeemableVault));
            },
        };
        if target.1.is_final_recovery() {
            let project = V::project_redemption_snapshot;
            let projection = project(vaults, collateral_id, stable_id, target.0);
            assert(call_ensures(
                V::project_redemption_snapshot,
                (vaults, collateral_id, stable_id, target.0),
                projection,
            ));
            let order = match projection {
                Err(error) => Err(Failure::Dispatch(error)),
                Ok(snapshot) => match redeem_recovery(
                    target.0,
                    &snapshot,
                    price,
                    &config,
                    terms,
                    readings.redeemer,
                    readings.fund,
                ) {
                    Ok(order) => Ok(RedeemOrder::Recovery(order)),
                    Err(error) => Err(Failure::Pallet(error)),
                },
            };
            assert(order == self.redeem_order(
                stable_id,
                config,
                price,
                *terms,
                max_steps,
                *readings,
                target,
                projection,
                0,
            ));
            order
        } else {
            let debt_of = V::stablecoin_debt;
            let debt = debt_of(vaults, stable_id);
            assert(call_ensures(V::stablecoin_debt, (vaults, stable_id), debt));
            let order = match self.fee_inputs(stable_id, &config, readings.now, debt) {
                Ok(fee_inputs) => match redeem_ordinary(
                    target,
                    &config,
                    &fee_inputs,
                    terms,
                    readings.redeemer,
                    self.effective_step_cap(max_steps),
                ) {
                    Ok(order) => Ok(RedeemOrder::Ordinary(order)),
                    Err(error) => Err(Failure::Pallet(error)),
                },
                Err(error) => Err(Failure::Dispatch(DispatchError::Arithmetic(error))),
            };
            assert(order == self.redeem_order(
                stable_id,
                config,
                price,
                *terms,
                max_steps,
                *readings,
                target,
                Err(DispatchError::Corruption),
                debt,
            ));
            order
        }
    }

    /// Settles a recovery order with what was debited for it: the redeemer's payment and, where the
    /// order draws cover, the Insurance Fund's.
    pub fn settle_recovery<V: VaultInterface<CollateralId = CollateralId, AccountId = AccountId>>(
        &mut self,
        vaults: &mut V,
        context: &WalkContext<CollateralId, AccountId>,
        order: &RecoveryOrder<AccountId>,
        debt_payment: StableCredit,
        cover: Option<StableCredit>,
    ) -> (steps: Result<u32, Failure>)
        ensures
            match recovery_payment(*order, debt_payment, cover) {
                Err(failure) => steps == Err::<u32, Failure>(failure) && *final(vaults) == *old(
                    vaults,
                ),
                Ok(settlement) => exists|applied: Result<(), DispatchError>|
                    {
                        &&& #[trigger] V::settles(
                            *old(vaults),
                            context.collateral_id,
                            context.stable_id,
                            order.owner,
                            context.recipient,
                            settlement,
                            applied,
                            *final(vaults),
                        )
                        &&& steps == (match applied {
                            Ok(_) => Ok::<u32, Failure>(1),
                            Err(error) => Err(Failure::Dispatch(error)),
                        })
                    },
            },
            steps is Err ==> final(self).unchanged(*old(self)),
            steps is Ok ==> {
                &&& final(self).configs@ == old(self).configs@
                &&& final(self).states@ == old(self).states@
                &&& final(self).max_redemption_steps == old(self).max_redemption_steps
                &&& final(self).events@ == old(self).events@.push(
                    Event::RecoveryRedemptionExecuted {
                        collateral_id: context.collateral_id,
                        stable_id: context.stable_id,
                        redeemer: context.redeemer,
                        recipient: context.recipient,
                        vault_owner: order.owner,
                        stable_burned: order.plan.paid(),
                        insurance_cover: order.plan.covered(),
                        collateral_out: order.plan.received(),
                        regime: (match order.plan {
                            RecoveryPlan::AbovePar { .. } => RecoveryRegime::RecoveryBonus,
                            RecoveryPlan::BelowPar { .. } => RecoveryRegime::InsuranceAdjusted,
                        }),
                    },
                )
            },
    {
        let settlement = match recovery_settlement(order, debt_payment, cover) {
            Ok(settlement) => settlement,
            Err(failure) => {
                return Err(failure);
            },
        };
        let applied = vaults.redeem_step(
            context.collateral_id,
            context.stable_id,
            order.owner,
            context.recipient,
            settlement,
        );
        assert(V::settles(
            *old(vaults),
            context.collateral_id,
            context.stable_id,
            order.owner,
            context.recipient,
            settlement,
            applied,
            *vaults,
        ));
        match applied {
            Ok(_) => {},
            Err(error) => {
                return Err(Failure::Dispatch(error));
            },
        }
        self.events.push(
            Event::RecoveryRedemptionExecuted {
                collateral_id: context.collateral_id,
                stable_id: context.stable_id,
                redeemer: context.redeemer,
                recipient: context.recipient,
                vault_owner: order.owner,
                stable_burned: order.plan.debt(),
                insurance_cover: order.plan.insurance_cover(),
                collateral_out: order.plan.collateral(),
                regime: order.plan.regime(),
            },
        );
        Ok(1)
    }

    /// Walks the vaults of an ordinary order with what was debited for it.
    ///
    /// Returns the receipt, the fee to route to the fee handler, and the change to refund to the
    /// redeemer; the debt cancelled, the fee and the change add up to what was debited. The fee
    /// rate is monotonic only up to rounding, so the planned fee caps it: a shorter walk does not
    /// cost more than the plan it was funded against.
    pub fn settle_ordinary<V: VaultInterface<CollateralId = CollateralId, AccountId = AccountId>>(
        vaults: &mut V,
        context: &WalkContext<CollateralId, AccountId>,
        order: &OrdinaryOrder<AccountId>,
        payment: StableCredit,
    ) -> (settled: Result<
        (OrdinaryReceipt, StableCredit, StableCredit, Ghost<Trail<V>>),
        Failure,
    >)
        requires
            order.cost() <= u128::MAX,
        ensures
            payment.amount != order.cost() ==> settled is Err && settled->Err_0
                == Failure::Dispatch(DispatchError::Corruption) && *final(vaults) == *old(vaults),
            settled matches Err(Failure::Dispatch(error)) ==> payment.amount == order.cost()
                ==> exists|trail: Trail<V>, owner: AccountId|
                breaks_off(
                    trail,
                    *context,
                    OrdinaryResult::start(order.debt_budget),
                    (order.first_owner, order.first_status),
                    payment.asset,
                    order.step_cap,
                    *old(vaults),
                    owner,
                    error,
                    *final(vaults),
                ),
            settled matches Err(Failure::Pallet(error)) ==> error == Error::NoRedeemableVault
                && exists|trail: Trail<V>|
                {
                    &&& #[trigger] walks(
                        trail,
                        *context,
                        OrdinaryResult::start(order.debt_budget),
                        (order.first_owner, order.first_status),
                        payment.asset,
                        order.step_cap,
                        *old(vaults),
                        *final(vaults),
                    )
                    &&& walked(
                        trail.snapshots,
                        context.price,
                        OrdinaryResult::start(order.debt_budget),
                    ).debt == 0
                },
            settled matches Ok((receipt, fee, change, trail)) ==> {
                let start = OrdinaryResult::start(order.debt_budget);
                &&& walks(
                    trail@,
                    *context,
                    start,
                    (order.first_owner, order.first_status),
                    payment.asset,
                    order.step_cap,
                    *old(vaults),
                    *final(vaults),
                )
                &&& receipt == receipt_of(*order, context.price, trail@.snapshots)
                &&& receipt.result.steps == trail@.snapshots.len()
                &&& receipt.result.debt > 0
                &&& fee == (StableCredit { asset: payment.asset, amount: receipt.fee })
                &&& change.asset == payment.asset
                &&& receipt.result.debt + fee.amount + change.amount == payment.amount
            },
    {
        let mut payment = match exact_credit(payment, order.debit()) {
            Ok(payment) => payment,
            Err(error) => {
                return Err(Failure::Dispatch(error));
            },
        };
        let (result, trail) = match execute_ordinary_walk(
            vaults,
            context,
            order.step_cap,
            order.debt_budget,
            (order.first_owner, order.first_status),
            &mut payment,
        ) {
            Ok(walk) => walk,
            Err(error) => {
                return Err(Failure::Dispatch(error));
            },
        };
        if result.debt == 0 {
            assert(walks(
                trail@,
                *context,
                OrdinaryResult::start(order.debt_budget),
                (order.first_owner, order.first_status),
                payment.asset,
                order.step_cap,
                *old(vaults),
                *vaults,
            ));
            return Err(Failure::Pallet(Error::NoRedeemableVault));
        }
        let charged = order.fee_inputs.curve.fee(result.debt);
        let fee = if charged <= order.planned_fee {
            charged
        } else {
            order.planned_fee
        };
        let fee_credit = match exact_credit(payment.extract(fee), fee) {
            Ok(credit) => credit,
            Err(error) => {
                return Err(Failure::Dispatch(error));
            },
        };
        Ok((OrdinaryReceipt { result, fee }, fee_credit, payment, trail))
    }

    /// The stored fee state after an ordinary redemption.
    pub open spec fn finalized_state<A>(
        order: OrdinaryOrder<A>,
        receipt: OrdinaryReceipt,
    ) -> RedemptionState {
        RedemptionState {
            dynamic_fee: FixedU128 {
                inner: order.fee_inputs.curve.raised(receipt.result.debt as int) as u128,
            },
            last_fee_operation: order.fee_inputs.now,
        }
    }

    /// What an ordinary redemption reports: the dynamic fee, if it moved, and the redemption.
    pub open spec fn finalized_events(
        context: WalkContext<CollateralId, AccountId>,
        order: OrdinaryOrder<AccountId>,
        receipt: OrdinaryReceipt,
    ) -> Seq<Event<CollateralId, AccountId>> {
        let state = Self::finalized_state(order, receipt);
        let executed = Event::OrdinaryRedemptionExecuted {
            collateral_id: context.collateral_id,
            stable_id: context.stable_id,
            redeemer: context.redeemer,
            recipient: context.recipient,
            stable_burned: receipt.result.debt,
            collateral_out: receipt.result.collateral,
            fee: receipt.fee,
            steps: receipt.result.steps,
        };
        if state.dynamic_fee != order.fee_inputs.state.dynamic_fee {
            seq![
                Event::RedemptionDynamicFeeUpdated {
                    stable_id: context.stable_id,
                    old_dynamic_fee: order.fee_inputs.state.dynamic_fee,
                    new_dynamic_fee: state.dynamic_fee,
                },
                executed,
            ]
        } else {
            seq![executed]
        }
    }

    /// Whether completing an ordinary redemption can end with `steps`, and take what is stored from
    /// `before` to `after`: it fails for slippage, which changes nothing, or stores the fee state and
    /// reports.
    pub open spec fn finalizes(
        before: Self,
        context: WalkContext<CollateralId, AccountId>,
        order: OrdinaryOrder<AccountId>,
        receipt: OrdinaryReceipt,
        steps: Result<u32, Failure>,
        after: Self,
    ) -> bool {
        if !meets_floor(order, receipt) {
            &&& steps == Err::<u32, Failure>(Failure::Pallet(Error::SlippageExceeded))
            &&& after.unchanged(before)
        } else {
            &&& steps == Ok::<u32, Failure>(receipt.result.steps)
            &&& after.configs@ == before.configs@
            &&& after.states@ == before.states@.insert(
                context.stable_id,
                Self::finalized_state(order, receipt),
            )
            &&& after.events@ == before.events@ + Self::finalized_events(context, order, receipt)
            &&& after.max_redemption_steps == before.max_redemption_steps
        }
    }

    /// Completes an ordinary redemption whose fee was routed and whose change was refunded: checks
    /// the slippage floor, moves the dynamic fee, and reports.
    pub fn finalize_ordinary(
        &mut self,
        context: &WalkContext<CollateralId, AccountId>,
        order: &OrdinaryOrder<AccountId>,
        receipt: &OrdinaryReceipt,
    ) -> (steps: Result<u32, Failure>)
        ensures
            Self::finalizes(*old(self), *context, *order, *receipt, steps, *final(self)),
    {
        let stable_spent = receipt.result.debt.saturating_add(receipt.fee);
        let scaled_min = scale_floor(
            order.terms.min_collateral_out,
            stable_spent,
            order.terms.max_stable_to_spend,
        );
        if receipt.result.collateral < scaled_min {
            return Err(Failure::Pallet(Error::SlippageExceeded));
        }
        let new_fee = order.fee_inputs.curve.raised_dynamic_fee(receipt.result.debt);
        let old_fee = order.fee_inputs.state.dynamic_fee;
        self.states.insert(
            context.stable_id,
            RedemptionState { dynamic_fee: new_fee, last_fee_operation: order.fee_inputs.now },
        );
        let ghost before = self.events@;
        if new_fee != old_fee {
            self.events.push(
                Event::RedemptionDynamicFeeUpdated {
                    stable_id: context.stable_id,
                    old_dynamic_fee: old_fee,
                    new_dynamic_fee: new_fee,
                },
            );
        }
        self.events.push(
            Event::OrdinaryRedemptionExecuted {
                collateral_id: context.collateral_id,
                stable_id: context.stable_id,
                redeemer: context.redeemer,
                recipient: context.recipient,
                stable_burned: receipt.result.debt,
                collateral_out: receipt.result.collateral,
                fee: receipt.fee,
                steps: receipt.result.steps,
            },
        );
        assert(self.events@ =~= before + Self::finalized_events(*context, *order, *receipt));
        Ok(receipt.result.steps)
    }

    /// The quote of a redemption of up to `max_stable_to_spend` over projected targets.
    pub open spec fn quote(
        self,
        stable_id: StableId,
        max_stable_to_spend: u128,
        max_steps: u32,
        price: Result<FixedU128, DispatchError>,
        now: Millis,
        fund: Payable,
        stablecoin_debt: u128,
        targets: Seq<Projection>,
    ) -> Result<RedemptionQuote<u128>, Failure> {
        match redemption_inputs_spec(self.config(stable_id), max_stable_to_spend, price) {
            Err(error) => Err(Failure::Pallet(error)),
            Ok((config, price)) => if targets.len() == 0 {
                Err(Failure::Pallet(Error::NoRedeemableVault))
            } else {
                match targets[0] {
                    Err(error) => Err(Failure::Dispatch(error)),
                    Ok(first) => if first.status == VaultStatus::FinalRecovery {
                        match recovery_plan(first, price, max_stable_to_spend, config, fund) {
                            Err(error) => Err(Failure::Pallet(error)),
                            Ok(plan) => if !plan.progresses() {
                                Err(Failure::Pallet(Error::NoRedeemableVault))
                            } else {
                                Ok(
                                    RedemptionQuote {
                                        debt_cancelled: plan.paid(),
                                        collateral_out: plan.received(),
                                        fee: 0,
                                        steps: 1,
                                        truncated: false,
                                    },
                                )
                            },
                        }
                    } else {
                        let curve = curve_at(self.state(stable_id), now, config, stablecoin_debt);
                        let debt_budget = bought(fee_of(curve), max_stable_to_spend as int);
                        if debt_budget < config.minimum_redemption_amount {
                            Err(Failure::Pallet(Error::BelowMinimumRedemptionAmount))
                        } else {
                            ordinary_quote(
                                targets,
                                price,
                                curve,
                                debt_budget as u128,
                                self.step_cap(max_steps),
                            )
                        }
                    },
                }
            },
        }
    }

    /// Builds an indicative quote from projected targets.
    pub fn quote_redeem(
        &self,
        stable_id: StableId,
        max_stable_to_spend: u128,
        max_steps: u32,
        price: Result<FixedU128, DispatchError>,
        now: Millis,
        fund: Payable,
        stablecoin_debt: u128,
        targets: &Vec<Projection>,
    ) -> (quote: Result<RedemptionQuote<u128>, Failure>)
        ensures
            quote == self.quote(
                stable_id,
                max_stable_to_spend,
                max_steps,
                price,
                now,
                fund,
                stablecoin_debt,
                targets@,
            ),
    {
        let (config, price) = match self.redemption_inputs(stable_id, max_stable_to_spend, price) {
            Ok(inputs) => inputs,
            Err(error) => {
                return Err(Failure::Pallet(error));
            },
        };
        if targets.len() == 0 {
            return Err(Failure::Pallet(Error::NoRedeemableVault));
        }
        let first = match &targets[0] {
            Ok(first) => *first,
            Err(error) => {
                return Err(Failure::Dispatch(*error));
            },
        };
        if first.status.is_final_recovery() {
            return match price_recovery(&first, price, max_stable_to_spend, &config, fund) {
                Err(error) => Err(Failure::Pallet(error)),
                Ok(plan) => {
                    if plan.debt() == 0 && plan.insurance_cover() == 0 {
                        Err(Failure::Pallet(Error::NoRedeemableVault))
                    } else {
                        Ok(
                            RedemptionQuote {
                                debt_cancelled: plan.debt(),
                                collateral_out: plan.collateral(),
                                fee: 0,
                                steps: 1,
                                truncated: false,
                            },
                        )
                    }
                },
            };
        }
        let fee_inputs = match self.fee_inputs(stable_id, &config, now, stablecoin_debt) {
            Ok(fee_inputs) => fee_inputs,
            Err(error) => {
                return Err(Failure::Dispatch(DispatchError::Arithmetic(error)));
            },
        };
        let debt_budget = ordinary_debt_budget(&fee_inputs, max_stable_to_spend);
        if debt_budget < config.minimum_redemption_amount {
            return Err(Failure::Pallet(Error::BelowMinimumRedemptionAmount));
        }
        quote_ordinary(
            targets,
            price,
            &fee_inputs,
            debt_budget,
            self.effective_step_cap(max_steps),
        )
    }

    /// Quotes the market-side result of spending up to `max_stable_to_spend`.
    ///
    /// The quote projects pending vault updates without applying them and ignores the redeemer's
    /// balance, so an account that cannot cover [`RedemptionQuote::stable_in`] while keeping its
    /// minimum balance fills less.
    ///
    /// Validation, oracle, and vault-projection failures are returned to the caller. An empty or
    /// blocked queue returns [`Error::NoRedeemableVault`]; a `FinalRecovery` head above its initial
    /// ratio returns [`Error::FinalRecoveryExitRequired`].
    pub fn preview_redeem<V: VaultInterface<CollateralId = CollateralId, AccountId = AccountId>>(
        &self,
        vaults: &V,
        collateral_id: CollateralId,
        stable_id: StableId,
        max_stable_to_spend: u128,
        max_steps: u32,
        price: Result<FixedU128, DispatchError>,
        now: Millis,
        fund: Payable,
    ) -> (quote: Result<RedemptionQuote<u128>, Failure>)
        ensures
            exists|targets: Seq<Projection>, debt: u128|
                {
                    &&& projections_of(
                        *vaults,
                        collateral_id,
                        stable_id,
                        if self.step_cap(max_steps) == 0 {
                            1
                        } else {
                            self.step_cap(max_steps)
                        },
                        targets,
                    )
                    &&& call_ensures(V::stablecoin_debt, (vaults, stable_id), debt)
                    &&& quote == #[trigger] self.quote(
                        stable_id,
                        max_stable_to_spend,
                        max_steps,
                        price,
                        now,
                        fund,
                        debt,
                        targets,
                    )
                },
    {
        let cap = self.effective_step_cap(max_steps);
        let count = if cap == 0 {
            1
        } else {
            cap
        };
        let targets = project_targets(vaults, collateral_id, stable_id, count);
        let debt_of = V::stablecoin_debt;
        let debt = debt_of(vaults, stable_id);
        assert(call_ensures(V::stablecoin_debt, (vaults, stable_id), debt));
        self.quote_redeem(
            stable_id,
            max_stable_to_spend,
            max_steps,
            price,
            now,
            fund,
            debt,
            &targets,
        )
    }

    /// Replaces a stablecoin's redemption configuration, for every collateral market issuing it.
    ///
    /// `authorized` is what the coin's own authority makes of the caller.
    pub fn set_redemption_config(
        &mut self,
        authorized: Result<(), DispatchError>,
        stable_id: StableId,
        config: RedemptionConfig<u128>,
    ) -> (updated: Result<(), Failure>)
        ensures
            updated == (match authorized {
                Err(error) => Err(Failure::Dispatch(error)),
                Ok(_) => if old(self).config(stable_id) is None {
                    Err(Failure::Pallet(Error::StablecoinNotRegistered))
                } else if !config.valid() {
                    Err(Failure::Pallet(Error::InvalidRedemptionConfig))
                } else {
                    Ok(())
                },
            }),
            updated is Err ==> final(self).unchanged(*old(self)),
            updated is Ok ==> {
                &&& final(self).configs@ == old(self).configs@.insert(stable_id, config)
                &&& final(self).states@ == old(self).states@
                &&& final(self).max_redemption_steps == old(self).max_redemption_steps
                &&& final(self).events@ == old(self).events@.push(
                    Event::RedemptionConfigUpdated { stable_id },
                )
            },
    {
        match authorized {
            Ok(_) => {},
            Err(error) => {
                return Err(Failure::Dispatch(error));
            },
        }
        if !self.configs.contains_key(stable_id) {
            return Err(Failure::Pallet(Error::StablecoinNotRegistered));
        }
        if !config.is_valid() {
            return Err(Failure::Pallet(Error::InvalidRedemptionConfig));
        }
        self.configs.insert(stable_id, config);
        self.events.push(Event::RedemptionConfigUpdated { stable_id });
        Ok(())
    }
}

} // verus!
