//! Redemption policy rows along the lifecycle of a stablecoin's markets.
//!
//! The stablecoin's first market seeds the stablecoin-wide rows, and the last one to leave clears
//! them.

use crate::arithmetic::FixedU128;
use crate::primitives::credit::StableId;
use crate::primitives::error::DispatchError;
use crate::primitives::registration::OnBranchLifecycle;
use crate::redemptions::error::{Error, Failure};
use crate::redemptions::fee_laws::{
    law_effective_fee_is_within_the_policy, law_raised_fee_lies_between_arrival_and_ceiling,
};
use crate::redemptions::pallet::{curve_at, Pallet};
use crate::redemptions::types::{Millis, RedemptionConfig, RedemptionState};
use vstd::prelude::*;

verus! {

/// Whether the market being registered is the one that seeds a stablecoin's rows. The count
/// includes the market it is announcing, so the first one sees exactly one.
pub fn is_first_market(stablecoin_markets: u32) -> (first: bool)
    ensures
        first == (stablecoin_markets == 1),
{
    stablecoin_markets == 1
}

/// What the registration of a stablecoin's market comes to.
///
/// The market count and the stored policy record the same fact, whether this is the first market:
/// where they disagree, one of them is corrupt. The first market must bring a valid policy, and no
/// later one may bring any.
pub open spec fn registration(
    stored: bool,
    stablecoin_markets: u32,
    config: Option<RedemptionConfig<u128>>,
) -> Result<(), Failure> {
    if stablecoin_markets == 0 || stored == (stablecoin_markets == 1) {
        Err(Failure::Dispatch(DispatchError::Corruption))
    } else {
        match (stablecoin_markets == 1, config) {
            (true, Some(config)) => if config.valid() {
                Ok(())
            } else {
                Err(Failure::Pallet(Error::InvalidRedemptionConfig))
            },
            (false, None) => Ok(()),
            (true, None) => Err(Failure::Pallet(Error::RedemptionConfigRequired)),
            (false, Some(_)) => Err(Failure::Pallet(Error::RedemptionConfigNotExpected)),
        }
    }
}

/// One redemption policy governs every collateral market issuing the coin, so only the first
/// market carries it. Later markets must pass `None` rather than restate a policy they do not own.
impl<CollateralId: Copy, AccountId: Copy> OnBranchLifecycle<
    CollateralId,
    StableId,
    AccountId,
> for Pallet<CollateralId, AccountId> {
    type RegistrationConfig = Option<RedemptionConfig<u128>>;

    type Error = Failure;

    open spec fn registers(
        before: Self,
        collateral_id: CollateralId,
        stable_id: StableId,
        stablecoin_markets: u32,
        config: Option<RedemptionConfig<u128>>,
        funder: AccountId,
        handled: Result<(), Failure>,
        after: Self,
    ) -> bool {
        &&& handled == registration(
            before.configs@.contains_key(stable_id),
            stablecoin_markets,
            config,
        )
        &&& handled is Err || stablecoin_markets != 1 ==> after.unchanged(before)
        &&& handled is Ok && stablecoin_markets == 1 ==> {
            &&& after.configs@ == before.configs@.insert(stable_id, config->0)
            &&& after.states@ == before.states@
            &&& after.events@ == before.events@
            &&& after.max_redemption_steps == before.max_redemption_steps
        }
    }

    open spec fn deregisters(
        before: Self,
        collateral_id: CollateralId,
        stable_id: StableId,
        remaining_stablecoin_markets: u32,
        handled: Result<(), Failure>,
        after: Self,
    ) -> bool {
        &&& handled == (if before.configs@.contains_key(stable_id) {
            Ok(())
        } else {
            Err(Failure::Dispatch(DispatchError::Corruption))
        })
        &&& handled is Err || remaining_stablecoin_markets != 0 ==> after.unchanged(before)
        &&& handled is Ok && remaining_stablecoin_markets == 0 ==> {
            &&& after.configs@ == before.configs@.remove(stable_id)
            &&& after.states@ == before.states@.remove(stable_id)
            &&& after.events@ == before.events@
            &&& after.max_redemption_steps == before.max_redemption_steps
        }
    }

    fn on_registered(
        &mut self,
        collateral_id: &CollateralId,
        stable_id: &StableId,
        stablecoin_markets: u32,
        config: Option<RedemptionConfig<u128>>,
        funder: &AccountId,
    ) -> (registered: Result<(), Failure>)
    {
        // The count includes the market being announced, so it is never zero here.
        if stablecoin_markets == 0 {
            return Err(Failure::Dispatch(DispatchError::Corruption));
        }
        let first_market = is_first_market(stablecoin_markets);
        if self.configs.contains_key(*stable_id) == first_market {
            return Err(Failure::Dispatch(DispatchError::Corruption));
        }
        match (first_market, config) {
            (true, Some(config)) => {
                if !config.is_valid() {
                    return Err(Failure::Pallet(Error::InvalidRedemptionConfig));
                }
                self.configs.insert(*stable_id, config);
                Ok(())
            },
            (false, None) => Ok(()),
            (true, None) => Err(Failure::Pallet(Error::RedemptionConfigRequired)),
            (false, Some(_)) => Err(Failure::Pallet(Error::RedemptionConfigNotExpected)),
        }
    }

    fn on_deregistered(
        &mut self,
        collateral_id: &CollateralId,
        stable_id: &StableId,
        remaining_stablecoin_markets: u32,
    ) -> (deregistered: Result<(), Failure>)
    {
        if !self.configs.contains_key(*stable_id) {
            return Err(Failure::Dispatch(DispatchError::Corruption));
        }
        if remaining_stablecoin_markets == 0 {
            self.configs.remove(*stable_id);
            self.states.remove(*stable_id);
        }
        Ok(())
    }
}

/// What a stored row contradicts.
#[derive(Clone, Copy, PartialEq, Eq, Structural, Debug)]
pub enum TryStateError {
    /// A stored redemption config is not valid.
    InvalidConfig,
    /// A redemption fee state row has no config row.
    StateWithoutConfig,
    /// A stored dynamic fee is below the policy floor.
    FeeBelowFloor,
    /// A stored dynamic fee is above the policy ceiling.
    FeeAboveCeiling,
    /// The last fee operation is ahead of now.
    OperationAheadOfNow,
}

impl TryStateError {
    /// The contradiction in words.
    pub fn message(&self) -> (text: &'static str)
        ensures
            text@ == (match *self {
                TryStateError::InvalidConfig => "stored redemption config fails `is_valid`",
                TryStateError::StateWithoutConfig => "redemption fee state row without a config row",
                TryStateError::FeeBelowFloor => "stored `dynamic_fee` is below the policy floor",
                TryStateError::FeeAboveCeiling => "stored `dynamic_fee` is above the policy ceiling",
                TryStateError::OperationAheadOfNow => "`last_fee_operation` is ahead of now",
            })@,
    {
        match self {
            TryStateError::InvalidConfig => "stored redemption config fails `is_valid`",
            TryStateError::StateWithoutConfig => "redemption fee state row without a config row",
            TryStateError::FeeBelowFloor => "stored `dynamic_fee` is below the policy floor",
            TryStateError::FeeAboveCeiling => "stored `dynamic_fee` is above the policy ceiling",
            TryStateError::OperationAheadOfNow => "`last_fee_operation` is ahead of now",
        }
    }
}

impl<CollateralId: Copy, AccountId: Copy> Pallet<CollateralId, AccountId> {
    /// What the fee state row of a stablecoin contradicts at `now`, if anything.
    pub open spec fn state_error(self, stable_id: StableId, now: Millis) -> Option<TryStateError> {
        let state = self.states@[stable_id];
        match self.config(stable_id) {
            None => Some(TryStateError::StateWithoutConfig),
            Some(config) => if state.dynamic_fee.inner < config.dynamic_fee_floor.inner {
                Some(TryStateError::FeeBelowFloor)
            } else if state.dynamic_fee.inner > config.dynamic_fee_ceiling.inner {
                Some(TryStateError::FeeAboveCeiling)
            } else if state.last_fee_operation > now {
                Some(TryStateError::OperationAheadOfNow)
            } else {
                None
            },
        }
    }

    /// Whether every stored row is one that the write paths leave: a policy is valid, and a fee
    /// state belongs to a policy, lies within its bounds and is not ahead of `now`.
    pub open spec fn sound(self, now: Millis) -> bool {
        &&& forall|stable_id: StableId|
            #![trigger self.configs@[stable_id]]
            self.configs@.contains_key(stable_id) ==> self.configs@[stable_id].valid()
        &&& forall|stable_id: StableId|
            self.states@.contains_key(stable_id) ==> #[trigger] self.state_error(stable_id, now)
                is None
    }

    /// Verifies the stored rows at `now`.
    pub fn do_try_state(&self, now: Millis) -> (verified: Result<(), TryStateError>)
        ensures
            verified is Ok <==> self.sound(now),
            verified matches Err(TryStateError::InvalidConfig) ==> exists|stable_id: StableId|
                #![trigger self.configs@[stable_id]]
                self.configs@.contains_key(stable_id) && !self.configs@[stable_id].valid(),
            verified matches Err(error) ==> error == TryStateError::InvalidConfig || exists|
                stable_id: StableId,
            |
                self.states@.contains_key(stable_id) && #[trigger] self.state_error(stable_id, now)
                    == Some(error),
            (exists|stable_id: StableId|
                #![trigger self.configs@[stable_id]]
                self.configs@.contains_key(stable_id) && !self.configs@[stable_id].valid())
                ==> verified == Err::<(), TryStateError>(TryStateError::InvalidConfig),
    {
        let configured = self.configs.keys();
        let mut next: usize = 0;
        while next < configured.len()
            invariant
                next <= configured.len(),
                configured@.to_set() == self.configs@.dom(),
                forall|i: int|
                    #![trigger configured@[i]]
                    0 <= i < next ==> self.configs@[configured@[i]].valid(),
            decreases configured.len() - next,
        {
            let stable_id = configured[next];
            proof {
                assert(configured@.to_set().contains(stable_id));
            }
            match self.configs.get(stable_id) {
                Some(config) => {
                    if !config.is_valid() {
                        return Err(TryStateError::InvalidConfig);
                    }
                },
                None => {},
            }
            next = next + 1;
        }
        proof {
            assert forall|stable_id: StableId|
                #![trigger self.configs@[stable_id]]
                self.configs@.contains_key(stable_id) implies self.configs@[stable_id].valid() by {
                assert(configured@.to_set().contains(stable_id));
                let i = choose|i: int| 0 <= i < configured@.len() && configured@[i] == stable_id;
                assert(self.configs@[configured@[i]].valid());
            }
        }
        let stateful = self.states.keys();
        let mut next: usize = 0;
        while next < stateful.len()
            invariant
                next <= stateful.len(),
                stateful@.to_set() == self.states@.dom(),
                forall|stable_id: StableId|
                    #![trigger self.configs@[stable_id]]
                    self.configs@.contains_key(stable_id) ==> self.configs@[stable_id].valid(),
                forall|i: int|
                    #![trigger stateful@[i]]
                    0 <= i < next ==> self.state_error(stateful@[i], now) is None,
            decreases stateful.len() - next,
        {
            let stable_id = stateful[next];
            proof {
                assert(stateful@.to_set().contains(stable_id));
                assert(self.states@.contains_key(stable_id));
            }
            let ghost expected = self.state_error(stable_id, now);
            let state = self.redemption_state(stable_id);
            // Fee state must never outlive the config it is priced against.
            let config = match self.configs.get(stable_id) {
                Some(config) => config,
                None => {
                    assert(expected == Some(TryStateError::StateWithoutConfig));
                    return Err(TryStateError::StateWithoutConfig);
                },
            };
            if state.dynamic_fee.inner < config.dynamic_fee_floor.inner {
                assert(expected == Some(TryStateError::FeeBelowFloor));
                return Err(TryStateError::FeeBelowFloor);
            }
            if state.dynamic_fee.inner > config.dynamic_fee_ceiling.inner {
                assert(expected == Some(TryStateError::FeeAboveCeiling));
                return Err(TryStateError::FeeAboveCeiling);
            }
            if state.last_fee_operation > now {
                assert(expected == Some(TryStateError::OperationAheadOfNow));
                return Err(TryStateError::OperationAheadOfNow);
            }
            next = next + 1;
        }
        proof {
            assert forall|stable_id: StableId| self.states@.contains_key(stable_id) implies (
            #[trigger] self.state_error(stable_id, now)) is None by {
                assert(stateful@.to_set().contains(stable_id));
                let i = choose|i: int| 0 <= i < stateful@.len() && stateful@[i] == stable_id;
                assert(self.state_error(stateful@[i], now) is None);
            }
        }
        Ok(())
    }
}

/// An ordinary redemption keeps the stored rows sound: the fee that it stores lies within the
/// policy bounds, at the time of the redemption.
pub proof fn law_redemption_keeps_rows_sound<CollateralId: Copy, AccountId: Copy>(
    before: Pallet<CollateralId, AccountId>,
    after: Pallet<CollateralId, AccountId>,
    stable_id: StableId,
    now: Millis,
    stablecoin_debt: u128,
    redeemed: u128,
)
    requires
        before.sound(now),
        before.configs@.contains_key(stable_id),
        after.configs@ == before.configs@,
        after.states@ == before.states@.insert(
            stable_id,
            RedemptionState {
                dynamic_fee: FixedU128 {
                    inner: curve_at(
                        before.state(stable_id),
                        now,
                        before.configs@[stable_id],
                        stablecoin_debt,
                    ).raised(redeemed as int) as u128,
                },
                last_fee_operation: now,
            },
        ),
    ensures
        after.sound(now),
{
    let config = before.configs@[stable_id];
    let state = before.state(stable_id);
    let curve = curve_at(state, now, config, stablecoin_debt);
    law_effective_fee_is_within_the_policy(state, now, config);
    law_raised_fee_lies_between_arrival_and_ceiling(curve, redeemed as int);
    assert forall|id: StableId| after.states@.contains_key(id) implies (#[trigger] after.state_error(
        id,
        now,
    )) is None by {
        if id != stable_id {
            assert(before.state_error(id, now) is None);
        }
    }
    assert forall|id: StableId|
        #![trigger after.configs@[id]]
        after.configs@.contains_key(id) implies after.configs@[id].valid() by {
        assert(before.configs@[id].valid());
    }
}

/// Storing a valid policy keeps the stored rows sound, as long as a fee that is already stored for
/// the stablecoin lies within the policy's bounds.
pub proof fn law_valid_policy_keeps_rows_sound<CollateralId: Copy, AccountId: Copy>(
    before: Pallet<CollateralId, AccountId>,
    after: Pallet<CollateralId, AccountId>,
    stable_id: StableId,
    config: RedemptionConfig<u128>,
    now: Millis,
)
    requires
        before.sound(now),
        config.valid(),
        after.configs@ == before.configs@.insert(stable_id, config),
        after.states@ == before.states@,
        before.states@.contains_key(stable_id) ==> config.dynamic_fee_floor.inner
            <= before.states@[stable_id].dynamic_fee.inner <= config.dynamic_fee_ceiling.inner,
    ensures
        after.sound(now),
{
    assert forall|id: StableId| after.states@.contains_key(id) implies (#[trigger] after.state_error(
        id,
        now,
    )) is None by {
        assert(before.state_error(id, now) is None);
    }
    assert forall|id: StableId|
        #![trigger after.configs@[id]]
        after.configs@.contains_key(id) implies after.configs@[id].valid() by {
        if id != stable_id {
            assert(before.configs@[id].valid());
        }
    }
}

/// Whether `after` is `before` with the policy that a stablecoin's first market brought.
pub open spec fn seeded<CollateralId: Copy, AccountId: Copy>(
    before: Pallet<CollateralId, AccountId>,
    after: Pallet<CollateralId, AccountId>,
    stable_id: StableId,
    config: RedemptionConfig<u128>,
) -> bool {
    &&& !before.configs@.contains_key(stable_id)
    &&& config.valid()
    &&& after.configs@ == before.configs@.insert(stable_id, config)
    &&& after.states@ == before.states@
}

/// Whether `after` is `before` without the rows of a stablecoin whose last market left.
pub open spec fn cleared<CollateralId: Copy, AccountId: Copy>(
    before: Pallet<CollateralId, AccountId>,
    after: Pallet<CollateralId, AccountId>,
    stable_id: StableId,
) -> bool {
    &&& after.configs@ == before.configs@.remove(stable_id)
    &&& after.states@ == before.states@.remove(stable_id)
}

/// The first market of a stablecoin finds no fee state, and the last one to leave clears it: rows
/// stay sound through registration and removal.
pub proof fn law_market_lifecycle_keeps_rows_sound<CollateralId: Copy, AccountId: Copy>(
    before: Pallet<CollateralId, AccountId>,
    after: Pallet<CollateralId, AccountId>,
    stable_id: StableId,
    config: RedemptionConfig<u128>,
    now: Millis,
)
    requires
        before.sound(now),
        seeded(before, after, stable_id, config) || cleared(before, after, stable_id),
    ensures
        after.sound(now),
{
    assert(before.states@.contains_key(stable_id) ==> before.state_error(stable_id, now) is None);
    assert forall|id: StableId| after.states@.contains_key(id) implies (#[trigger] after.state_error(
        id,
        now,
    )) is None by {
        assert(before.state_error(id, now) is None);
    }
    assert forall|id: StableId|
        #![trigger after.configs@[id]]
        after.configs@.contains_key(id) implies after.configs@[id].valid() by {
        if id != stable_id {
            assert(before.configs@[id].valid());
        }
    }
}

} // verus!
