//! Benchmark set-up of a redeemable branch.

use crate::arithmetic::{FixedU128, Permill, DIV};
use crate::primitives::credit::StableId;
use crate::redemptions::lifecycle::{is_first_market, registration};
use crate::redemptions::types::RedemptionConfig;
use vstd::prelude::*;

verus! {

/// Asset that the benchmarks mint their stablecoin under. They create it themselves, so any
/// identifier outside the well-known range would do.
pub const BENCHMARK_STABLE_ASSET_ID: StableId = 50_000_342;

/// One whole stablecoin unit, at six decimals.
pub const PUSD: u128 = 1_000_000;

/// Whether a policy has a one-unit minimum, a half-life of six hours, a full-range dynamic fee that
/// rises by half of the redeemed share, a base fee of half a percent without a ceiling, and a buffer
/// of one percent.
pub open spec fn least_restrictive(config: RedemptionConfig<u128>) -> bool {
    &&& config.minimum_redemption_amount == 1
    &&& config.dynamic_fee_decay_period == 21_600_000
    &&& config.dynamic_fee_floor.inner == 0
    &&& config.dynamic_fee_ceiling.inner == DIV
    &&& config.base_fee.parts() == 5_000
    &&& config.fee_ceiling.parts() == 1_000_000
    &&& config.dynamic_fee_increase_divisor.inner == 2 * DIV
    &&& config.final_recovery_bonus_buffer.parts() == 10_000
}

/// The least restrictive valid policy: a one-unit minimum and a full-range fee band, so that
/// nothing in it becomes the binding constraint of a benchmark.
pub fn registration_config() -> (config: RedemptionConfig<u128>)
    ensures
        least_restrictive(config),
        config.valid(),
{
    RedemptionConfig {
        minimum_redemption_amount: 1,
        dynamic_fee_decay_period: 6 * 3_600 * 1_000,
        dynamic_fee_floor: FixedU128::zero(),
        dynamic_fee_ceiling: FixedU128::one(),
        base_fee: Permill::from_parts(5_000),
        fee_ceiling: Permill::one(),
        dynamic_fee_increase_divisor: FixedU128::from_u32(2),
        final_recovery_bonus_buffer: Permill::from_percent(1),
    }
}

/// The policy with which a benchmark registers a stablecoin's market: the first market's carries
/// one, and no later one does.
pub fn benchmark_registration_config(stablecoin_markets: u32) -> (config: Option<
    RedemptionConfig<u128>,
>)
    ensures
        config is Some <==> stablecoin_markets == 1,
        config matches Some(config) ==> least_restrictive(config),
        registration(stablecoin_markets > 1, stablecoin_markets, config) is Ok
            <==> stablecoin_markets > 0,
{
    if is_first_market(stablecoin_markets) {
        Some(registration_config())
    } else {
        None
    }
}

/// Keeper and penalty figures of a branch.
#[derive(Clone, Copy, PartialEq, Eq, Debug)]
pub struct LiquidationConfig {
    /// Penalty on debt that the pool offsets.
    pub offset_penalty: Permill,
    /// Fixed part of the keeper's compensation.
    pub keeper_flat_compensation_value: u128,
    /// Proportional part of the keeper's compensation.
    pub keeper_percent_compensation: Permill,
    /// Cap of the keeper's compensation.
    pub keeper_compensation_cap_value: u128,
    /// Smallest just-in-time contribution.
    pub minimum_jit_contribution: u128,
    /// Penalty on debt that is redistributed.
    pub redistribution_penalty: Permill,
}

/// Policy of a branch.
#[derive(Clone, Copy, PartialEq, Eq, Debug)]
pub struct BranchConfig {
    /// Ratio below which a vault can be liquidated.
    pub minimum_collateralization_ratio: FixedU128,
    /// Ratio that a vault must open with.
    pub initial_collateralization_ratio: FixedU128,
    /// Total ratio below which the branch protects itself.
    pub safety_collateralization_ratio: FixedU128,
    /// Debt that the branch may issue.
    pub debt_ceiling: u128,
    /// Smallest debt of a vault.
    pub minimum_debt: u128,
    /// Smallest collateral of a vault.
    pub minimum_collateral: u128,
    /// Lowest borrow rate.
    pub minimum_borrow_rate: FixedU128,
    /// Highest borrow rate.
    pub maximum_borrow_rate: FixedU128,
    /// Interest period charged up front, in milliseconds.
    pub upfront_fee_period: u64,
    /// Time between two rate adjustments, in milliseconds.
    pub rate_adjustment_cooldown: u64,
    /// Liquidation figures.
    pub liquidation: LiquidationConfig,
}

/// What the set-up of a redeemable branch creates.
#[derive(Debug)]
pub struct RedeemableBranch {
    /// Stablecoin that the branch issues.
    pub stable_id: StableId,
    /// Price of one collateral unit.
    pub price: FixedU128,
    /// Policy of the branch.
    pub branch: BranchConfig,
    /// Debt that the stablecoin may have over all branches.
    pub global_debt_ceiling: u128,
    /// Collateral given to the branch's administrator.
    pub admin_funding: u128,
    /// Collateral given to each vault owner and to the redeemer.
    pub funding: u128,
    /// Collateral that each vault opens with.
    pub collateral: u128,
    /// Debt that each vault opens with.
    pub debt: u128,
    /// Borrow rate of each vault, one per vault.
    pub rates: Vec<FixedU128>,
    /// Stablecoin given to the redeemer.
    pub minted: u128,
    /// Budget of the redemption.
    pub budget: u128,
}

/// Sets up branches to benchmark redemptions on.
pub struct RedemptionsBenchmarkHelper;

impl RedemptionsBenchmarkHelper {
    /// Decides the figures of a market with `vaults` redeemable vaults, and of a redeemer.
    ///
    /// `units` is one whole unit of the collateral, and `minimum_balance` its smallest balance. The
    /// vaults' rates ascend, so that each lies behind the previous one in the redemption order;
    /// their debt clears the minimum, and the redeemer can pay for more than all of it.
    pub fn setup_redeemable_branch(vaults: u32, units: u128, minimum_balance: u128) -> (setup:
        RedeemableBranch)
        requires
            units * 10_000 <= u128::MAX,
        ensures
            setup.stable_id == BENCHMARK_STABLE_ASSET_ID,
            setup.price.inner == 10 * DIV,
            setup.branch.minimum_collateralization_ratio.inner == 1_100_000_000_000_000_000,
            setup.branch.initial_collateralization_ratio.inner == 1_200_000_000_000_000_000,
            setup.branch.safety_collateralization_ratio.inner == 1_300_000_000_000_000_000,
            setup.branch.debt_ceiling == 1_000_000 * PUSD,
            setup.branch.minimum_debt == 10 * PUSD,
            setup.branch.minimum_collateral == minimum_balance,
            setup.branch.minimum_borrow_rate.inner == 1_000_000_000_000_000,
            setup.branch.maximum_borrow_rate.inner == DIV,
            setup.branch.upfront_fee_period == 604_800_000,
            setup.branch.rate_adjustment_cooldown == 86_400_000,
            setup.branch.liquidation.offset_penalty.parts() == 50_000,
            setup.branch.liquidation.keeper_flat_compensation_value == 100,
            setup.branch.liquidation.keeper_percent_compensation.parts() == 1_000,
            setup.branch.liquidation.keeper_compensation_cap_value == 10_000,
            setup.branch.liquidation.minimum_jit_contribution == 100,
            setup.branch.liquidation.redistribution_penalty.parts() == 50_000,
            setup.global_debt_ceiling == 1_000_000_000 * PUSD,
            setup.admin_funding == 100 * units,
            setup.collateral == 1_000 * units,
            setup.funding == 10_000 * units,
            setup.debt == 20 * PUSD,
            setup.rates@.len() == vaults,
            forall|i: int|
                0 <= i < vaults ==> (#[trigger] setup.rates@[i]).inner == (i + 1)
                    * 1_000_000_000_000_000,
            setup.budget == setup.debt * (vaults + 2) * 2,
            setup.minted == setup.budget * 2,
    {
        let debt: u128 = 20 * PUSD;
        let mut rates: Vec<FixedU128> = Vec::new();
        let mut next: u32 = 0;
        while next < vaults
            invariant
                next == rates@.len() <= vaults,
                forall|i: int|
                    0 <= i < next ==> (#[trigger] rates@[i]).inner == (i + 1)
                        * 1_000_000_000_000_000,
            decreases vaults - next,
        {
            rates.push(FixedU128::from_rational(next as u128 + 1, 1_000));
            next = next + 1;
        }
        let budget: u128 = debt * (vaults as u128 + 2) * 2;
        RedeemableBranch {
            stable_id: BENCHMARK_STABLE_ASSET_ID,
            price: FixedU128::from_u32(10),
            branch: BranchConfig {
                minimum_collateralization_ratio: FixedU128::from_rational(110, 100),
                initial_collateralization_ratio: FixedU128::from_rational(120, 100),
                safety_collateralization_ratio: FixedU128::from_rational(130, 100),
                debt_ceiling: 1_000_000 * PUSD,
                minimum_debt: 10 * PUSD,
                minimum_collateral: minimum_balance,
                minimum_borrow_rate: FixedU128::from_rational(1, 1_000),
                maximum_borrow_rate: FixedU128::from_rational(1, 1),
                upfront_fee_period: 7 * 24 * 60 * 60 * 1_000,
                rate_adjustment_cooldown: 24 * 60 * 60 * 1_000,
                liquidation: LiquidationConfig {
                    offset_penalty: Permill::from_percent(5),
                    keeper_flat_compensation_value: 100,
                    keeper_percent_compensation: Permill::from_parts(1_000),
                    keeper_compensation_cap_value: 10_000,
                    minimum_jit_contribution: 100,
                    redistribution_penalty: Permill::from_percent(5),
                },
            },
            global_debt_ceiling: 1_000_000_000 * PUSD,
            admin_funding: 100 * units,
            funding: 10_000 * units,
            collateral: 1_000 * units,
            debt,
            rates,
            minted: budget * 2,
            budget,
        }
    }
}

} // verus!
