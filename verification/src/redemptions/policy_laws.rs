//! What the stored policies and fee states are, and how markets come by them.

use crate::primitives::credit::StableId;
use crate::primitives::error::DispatchError;
use crate::primitives::registration::OnBranchLifecycle;
use crate::redemptions::error::{Error, Failure};
use crate::redemptions::lifecycle::TryStateError;
use crate::redemptions::pallet::Pallet;
use crate::redemptions::types::{Millis, RedemptionConfig};
use vstd::prelude::*;

verus! {

/// A policy is valid exactly where its minimum, its half-life and its divisor are above zero, and
/// neither the dynamic fee's bounds nor the base fee and the fee ceiling are inverted. Nothing else
/// in it matters.
pub proof fn law_valid_policy(config: RedemptionConfig<u128>, other: RedemptionConfig<u128>)
    ensures
        config.minimum_redemption_amount == 0 || config.dynamic_fee_decay_period == 0
            || config.dynamic_fee_increase_divisor.inner == 0 ==> !config.valid(),
        config.dynamic_fee_ceiling.inner < config.dynamic_fee_floor.inner ==> !config.valid(),
        config.fee_ceiling.parts() < config.base_fee.parts() ==> !config.valid(),
        config.valid() && other.minimum_redemption_amount >= config.minimum_redemption_amount
            && other.dynamic_fee_decay_period >= config.dynamic_fee_decay_period
            && other.dynamic_fee_increase_divisor.inner
            >= config.dynamic_fee_increase_divisor.inner && other.dynamic_fee_floor.inner
            <= config.dynamic_fee_floor.inner && other.dynamic_fee_ceiling.inner
            >= config.dynamic_fee_ceiling.inner && other.base_fee.parts() <= config.base_fee.parts()
            && other.fee_ceiling.parts() >= config.fee_ceiling.parts() ==> other.valid(),
        config.minimum_redemption_amount >= 1 && config.dynamic_fee_decay_period >= 1
            && config.dynamic_fee_increase_divisor.inner >= 1 && config.dynamic_fee_floor
            == config.dynamic_fee_ceiling && config.base_fee == config.fee_ceiling
            ==> config.valid(),
{
}

/// Stored rows are sound exactly where every policy is valid, and every fee state belongs to a policy,
/// lies within its bounds, and was left no later than now.
pub proof fn law_sound_rows<CollateralId: Copy, AccountId: Copy>(
    pallet: Pallet<CollateralId, AccountId>,
    now: Millis,
)
    ensures
        pallet.sound(now) <==> {
            &&& forall|stable_id: StableId| #[trigger]
                pallet.configs@.contains_key(stable_id) ==> pallet.configs@[stable_id].valid()
            &&& forall|stable_id: StableId| #[trigger]
                pallet.states@.contains_key(stable_id) ==> {
                    let state = pallet.states@[stable_id];
                    let config = pallet.configs@[stable_id];
                    &&& pallet.configs@.contains_key(stable_id)
                    &&& config.dynamic_fee_floor.inner <= state.dynamic_fee.inner
                    &&& state.dynamic_fee.inner <= config.dynamic_fee_ceiling.inner
                    &&& state.last_fee_operation <= now
                }
        },
{
    if pallet.sound(now) {
        assert forall|stable_id: StableId| #[trigger]
            pallet.configs@.contains_key(stable_id) implies pallet.configs@[stable_id].valid() by {}
        assert forall|stable_id: StableId| #[trigger]
            pallet.states@.contains_key(stable_id) implies {
            let state = pallet.states@[stable_id];
            let config = pallet.configs@[stable_id];
            &&& pallet.configs@.contains_key(stable_id)
            &&& config.dynamic_fee_floor.inner <= state.dynamic_fee.inner
            &&& state.dynamic_fee.inner <= config.dynamic_fee_ceiling.inner
            &&& state.last_fee_operation <= now
        } by {
            assert(pallet.state_error(stable_id, now) is None);
        }
    }
}

/// A stablecoin's first market, and no later one, brings its policy, which must be valid and is then
/// stored for the stablecoin alone. A registration that the stored policies contradict fails as a
/// corruption before anything else. A failed registration changes nothing, and no registration
/// touches a fee state.
pub proof fn law_first_market_brings_the_policy<CollateralId: Copy, AccountId: Copy>(
    before: Pallet<CollateralId, AccountId>,
    collateral_id: CollateralId,
    stable_id: StableId,
    markets: u32,
    config: Option<RedemptionConfig<u128>>,
    funder: AccountId,
    handled: Result<(), Failure>,
    after: Pallet<CollateralId, AccountId>,
    other: StableId,
)
    requires
        <Pallet<CollateralId, AccountId> as OnBranchLifecycle<
            CollateralId,
            StableId,
            AccountId,
        >>::registers(
            before,
            collateral_id,
            stable_id,
            markets,
            config,
            funder,
            handled,
            after,
        ),
    ensures
        ({
            let known = before.configs@.contains_key(stable_id);
            let contradicted = markets == 0 || markets == 1 && known || markets > 1 && !known;
            &&& contradicted ==> handled == Err::<(), Failure>(
                Failure::Dispatch(DispatchError::Corruption),
            )
            &&& !contradicted && markets == 1 ==> handled == (match config {
                None => Err::<(), Failure>(Failure::Pallet(Error::RedemptionConfigRequired)),
                Some(config) => if config.valid() {
                    Ok(())
                } else {
                    Err(Failure::Pallet(Error::InvalidRedemptionConfig))
                },
            })
            &&& !contradicted && markets > 1 ==> handled == (match config {
                None => Ok::<(), Failure>(()),
                Some(_) => Err(Failure::Pallet(Error::RedemptionConfigNotExpected)),
            })
            &&& handled is Ok && markets == 1 ==> {
                &&& after.configs@.contains_key(stable_id)
                &&& Some(after.configs@[stable_id]) == config
                &&& other != stable_id ==> after.configs@.contains_key(other)
                    == before.configs@.contains_key(other) && after.configs@[other]
                    == before.configs@[other]
            }
            &&& handled is Err || markets > 1 ==> after.configs@ == before.configs@
            &&& after.states@ == before.states@
            &&& after.events@ == before.events@
            &&& after.max_redemption_steps == before.max_redemption_steps
        }),
{
}

/// The last market to leave takes the stablecoin's policy and fee state along, and no earlier one
/// does. A stablecoin without a policy has no market to leave.
pub proof fn law_last_market_takes_the_policy_along<CollateralId: Copy, AccountId: Copy>(
    before: Pallet<CollateralId, AccountId>,
    collateral_id: CollateralId,
    stable_id: StableId,
    remaining: u32,
    handled: Result<(), Failure>,
    after: Pallet<CollateralId, AccountId>,
    other: StableId,
)
    requires
        <Pallet<CollateralId, AccountId> as OnBranchLifecycle<
            CollateralId,
            StableId,
            AccountId,
        >>::deregisters(before, collateral_id, stable_id, remaining, handled, after),
    ensures
        before.configs@.contains_key(stable_id) ==> handled == Ok::<(), Failure>(()),
        !before.configs@.contains_key(stable_id) ==> handled == Err::<(), Failure>(
            Failure::Dispatch(DispatchError::Corruption),
        ),
        handled is Ok && remaining == 0 ==> !after.configs@.contains_key(stable_id)
            && !after.states@.contains_key(stable_id),
        handled is Err || remaining > 0 || other != stable_id ==> {
            &&& after.configs@.contains_key(other) == before.configs@.contains_key(other)
            &&& after.states@.contains_key(other) == before.states@.contains_key(other)
            &&& before.configs@.contains_key(other) ==> after.configs@[other]
                == before.configs@[other]
            &&& before.states@.contains_key(other) ==> after.states@[other] == before.states@[other]
        },
        after.events@ == before.events@,
        after.max_redemption_steps == before.max_redemption_steps,
{
}

/// A stablecoin whose only market comes and goes leaves the stored rows as they were, where it had no
/// fee state before.
pub proof fn law_removal_undoes_registration<CollateralId: Copy, AccountId: Copy>(
    before: Pallet<CollateralId, AccountId>,
    collateral_id: CollateralId,
    stable_id: StableId,
    config: Option<RedemptionConfig<u128>>,
    funder: AccountId,
    between: Pallet<CollateralId, AccountId>,
    removed: Result<(), Failure>,
    after: Pallet<CollateralId, AccountId>,
)
    requires
        <Pallet<CollateralId, AccountId> as OnBranchLifecycle<
            CollateralId,
            StableId,
            AccountId,
        >>::registers(before, collateral_id, stable_id, 1, config, funder, Ok(()), between),
        <Pallet<CollateralId, AccountId> as OnBranchLifecycle<
            CollateralId,
            StableId,
            AccountId,
        >>::deregisters(between, collateral_id, stable_id, 0, removed, after),
        !before.states@.contains_key(stable_id),
    ensures
        removed == Ok::<(), Failure>(()),
        after.configs@ == before.configs@,
        after.states@ == before.states@,
{
    assert(after.configs@ =~= before.configs@);
    assert(after.states@ =~= before.states@);
}

/// What a fee state contradicts is told apart: a missing policy first, then a fee below or above the
/// policy's bounds, then a time ahead of now.
pub proof fn law_contradicted_state<CollateralId: Copy, AccountId: Copy>(
    pallet: Pallet<CollateralId, AccountId>,
    stable_id: StableId,
    now: Millis,
)
    ensures
        ({
            let state = pallet.states@[stable_id];
            let config = pallet.configs@[stable_id];
            let low = state.dynamic_fee.inner < config.dynamic_fee_floor.inner;
            let high = state.dynamic_fee.inner > config.dynamic_fee_ceiling.inner;
            let ahead = now < state.last_fee_operation;
            let found = pallet.state_error(stable_id, now);
            &&& !pallet.configs@.contains_key(stable_id) ==> found == Some(
                TryStateError::StateWithoutConfig,
            )
            &&& pallet.configs@.contains_key(stable_id) ==> {
                &&& low ==> found == Some(TryStateError::FeeBelowFloor)
                &&& !low && high ==> found == Some(TryStateError::FeeAboveCeiling)
                &&& !low && !high && ahead ==> found == Some(TryStateError::OperationAheadOfNow)
                &&& !low && !high && !ahead ==> found is None
            }
        }),
{
}

/// What is unchanged is unchanged in every row, in what was reported and in the step cap.
pub proof fn law_unchanged<CollateralId: Copy, AccountId: Copy>(
    before: Pallet<CollateralId, AccountId>,
    after: Pallet<CollateralId, AccountId>,
)
    requires
        after.unchanged(before),
    ensures
        after.configs@ == before.configs@,
        after.states@ == before.states@,
        after.events@ == before.events@,
        after.max_redemption_steps == before.max_redemption_steps,
{
}

} // verus!
