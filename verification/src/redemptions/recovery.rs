//! Final-recovery pricing, Insurance Fund cover, and Stability Pool offsets.

use crate::arithmetic::{least, rounded, FixedU128, Rounding, DIV};
use crate::primitives::debit::{
    debit_preservation, reducible_debit, reducible_debit_spec, Preservation, ReducibleBalance,
};
use crate::primitives::math::{
    collateralization_ratio, collateralization_ratio_spec, mul_div_floor, mul_rate_ceil,
    CollateralRatio,
};
use crate::primitives::recovery_pricing::{
    bonus_payout, insurance_adjusted, recovery_bonus, recovery_bonus_collateral_out,
    recovery_bonus_spec,
};
use crate::primitives::vault::{DebtCollateral, VaultStatus};
use crate::primitives::vault_interface::RedemptionStepSnapshot;
use crate::redemptions::error::Error;
use crate::redemptions::fees::{scale_floor, scaled_floor};
use crate::redemptions::types::{RecoveryRegime, RedemptionConfig, RedemptionTerms};
use vstd::prelude::*;

verus! {

/// Vault snapshot used to price a redemption step.
pub type Snapshot = RedemptionStepSnapshot<u128>;

/// What an account can pay of a stablecoin.
pub type Payable = ReducibleBalance<u128>;

/// One authoritative price for a `FinalRecovery` head.
///
/// Redemption execution, quotes, and Stability Pool offsets all consume this plan. Price again
/// with a smaller budget when the payer cannot fund it in full.
#[derive(Clone, Copy, PartialEq, Eq, Structural, Debug)]
pub enum RecoveryPlan {
    /// The head's collateral is worth at least its debt.
    AbovePar {
        /// Debt to cancel.
        debt: u128,
        /// Collateral to pay out.
        collateral: u128,
    },
    /// The head's collateral is worth less than its debt.
    BelowPar {
        /// Debt to cancel from the payer.
        debt: u128,
        /// Collateral to pay out.
        collateral: u128,
        /// Insurance Fund payment for a full settlement. A partial settlement does not draw from
        /// the fund.
        insurance_cover: u128,
    },
}

impl RecoveryPlan {
    /// Debt that the payer cancels.
    pub open spec fn paid(self) -> u128 {
        match self {
            RecoveryPlan::AbovePar { debt, .. } => debt,
            RecoveryPlan::BelowPar { debt, .. } => debt,
        }
    }

    /// Collateral that the recipient gets.
    pub open spec fn received(self) -> u128 {
        match self {
            RecoveryPlan::AbovePar { collateral, .. } => collateral,
            RecoveryPlan::BelowPar { collateral, .. } => collateral,
        }
    }

    /// Debt that the Insurance Fund cancels.
    pub open spec fn covered(self) -> u128 {
        match self {
            RecoveryPlan::AbovePar { .. } => 0,
            RecoveryPlan::BelowPar { insurance_cover, .. } => insurance_cover,
        }
    }

    /// Whether carrying out the plan cancels any debt.
    pub open spec fn progresses(self) -> bool {
        self.paid() != 0 || self.covered() != 0
    }

    /// Debt that the payer cancels.
    pub fn debt(&self) -> (debt: u128)
        ensures
            debt == self.paid(),
    {
        match self {
            RecoveryPlan::AbovePar { debt, .. } => *debt,
            RecoveryPlan::BelowPar { debt, .. } => *debt,
        }
    }

    /// Collateral that the recipient gets.
    pub fn collateral(&self) -> (collateral: u128)
        ensures
            collateral == self.received(),
    {
        match self {
            RecoveryPlan::AbovePar { collateral, .. } => *collateral,
            RecoveryPlan::BelowPar { collateral, .. } => *collateral,
        }
    }

    /// Pricing rules of the plan.
    pub fn regime(&self) -> (regime: RecoveryRegime)
        ensures
            regime == (match *self {
                RecoveryPlan::AbovePar { .. } => RecoveryRegime::RecoveryBonus,
                RecoveryPlan::BelowPar { .. } => RecoveryRegime::InsuranceAdjusted,
            }),
    {
        match self {
            RecoveryPlan::AbovePar { .. } => RecoveryRegime::RecoveryBonus,
            RecoveryPlan::BelowPar { .. } => RecoveryRegime::InsuranceAdjusted,
        }
    }

    /// The Insurance Fund payment for a full settlement; zero for a partial settlement, after
    /// which the vault remains in the list.
    pub fn insurance_cover(&self) -> (cover: u128)
        ensures
            cover == self.covered(),
    {
        match self {
            RecoveryPlan::AbovePar { .. } => 0,
            RecoveryPlan::BelowPar { insurance_cover, .. } => *insurance_cover,
        }
    }
}

/// Value of the head's collateral, rounded up.
pub open spec fn collateral_value(snapshot: Snapshot, price: FixedU128) -> int {
    rounded(snapshot.collateral * price.inner, DIV as int, Rounding::Up)
}

/// What the Insurance Fund pays of a shortfall.
pub open spec fn fund_cover(fund: Payable, shortfall: int) -> int {
    reducible_debit_spec(fund, shortfall as u128).0 as int
}

/// Share of the collateral that `debt` out of `market_debt` buys, rounded down.
pub open spec fn pro_rata(debt: int, collateral: int, market_debt: int) -> int {
    if market_debt == 0 {
        0
    } else {
        debt * collateral / market_debt
    }
}

/// The plan for a head above par that pays `bonus`, or nothing where the payout has no value.
pub open spec fn above_par(snapshot: Snapshot, price: FixedU128, budget: u128, bonus: int) -> Result<
    RecoveryPlan,
    Error,
> {
    let debt = snapshot.sized(budget as int);
    match bonus_payout::<u128>(debt, bonus, price.inner as int) {
        Some(payout) => Ok(
            RecoveryPlan::AbovePar {
                debt: debt as u128,
                collateral: least(payout as int, snapshot.collateral as int) as u128,
            },
        ),
        None => Err(Error::NoRedeemableVault),
    }
}

/// The plan for a head below par.
///
/// A budget that covers what the Insurance Fund leaves of the payoff settles the head in full, for
/// all of its collateral. A smaller budget draws no cover and buys its share of the collateral; the
/// share is over the base debt where a terminal charge applies, and leaves a unit of it.
pub open spec fn below_par(snapshot: Snapshot, price: FixedU128, budget: u128, fund: Payable) -> RecoveryPlan {
    let value = collateral_value(snapshot, price);
    let cover = fund_cover(fund, snapshot.payoff() - value);
    let market = snapshot.payoff() - cover;
    if budget >= market {
        RecoveryPlan::BelowPar {
            debt: market as u128,
            collateral: snapshot.collateral,
            insurance_cover: cover as u128,
        }
    } else if snapshot.terminal_interest_charge == 0 {
        RecoveryPlan::BelowPar {
            debt: budget,
            collateral: pro_rata(budget as int, snapshot.collateral as int, market) as u128,
            insurance_cover: 0,
        }
    } else {
        let base_market = snapshot.debt - fund_cover(fund, snapshot.debt - value);
        let debt = least(snapshot.partial(base_market), budget as int);
        RecoveryPlan::BelowPar {
            debt: debt as u128,
            collateral: pro_rata(debt, snapshot.collateral as int, base_market) as u128,
            insurance_cover: 0,
        }
    }
}

/// The plan for a recovery head, or the reason for which it has none.
///
/// A vault out of recovery, without debt, or without a ratio has none. A head above its initial
/// ratio must exit recovery first, unless its debt is below the minimum: such a head may be unable
/// to exit, so it settles at face value.
pub open spec fn recovery_plan(
    snapshot: Snapshot,
    price: FixedU128,
    budget: u128,
    config: RedemptionConfig<u128>,
    fund: Payable,
) -> Result<RecoveryPlan, Error> {
    let position = DebtCollateral { debt: snapshot.debt, collateral: snapshot.collateral };
    if snapshot.status != VaultStatus::FinalRecovery || price.inner == 0 {
        Err(Error::NoRedeemableVault)
    } else {
        match collateralization_ratio_spec(position, price) {
            Ok(CollateralRatio::Ratio(ratio)) => {
                let exited = ratio.inner > snapshot.initial_collateralization_ratio.inner;
                if exited && snapshot.debt >= snapshot.minimum_debt {
                    Err(Error::FinalRecoveryExitRequired)
                } else if ratio.inner >= DIV {
                    above_par(
                        snapshot,
                        price,
                        budget,
                        if exited {
                            0
                        } else {
                            recovery_bonus_spec(
                                ratio.inner as int,
                                config.final_recovery_bonus_buffer.fixed(),
                                snapshot.redistribution_penalty.fixed(),
                            )
                        },
                    )
                } else {
                    Ok(below_par(snapshot, price, budget, fund))
                }
            },
            _ => Err(Error::NoRedeemableVault),
        }
    }
}

/// A position whose ratio is below one is worth at most its debt, also rounded up.
pub(crate) proof fn lemma_below_par_value(snapshot: Snapshot, price: FixedU128, ratio: FixedU128)
    requires
        snapshot.debt > 0,
        ratio.inner < DIV,
        collateralization_ratio_spec(
            DebtCollateral { debt: snapshot.debt, collateral: snapshot.collateral },
            price,
        ) == Ok::<_, crate::arithmetic::ArithmeticError>(CollateralRatio::Ratio(ratio)),
    ensures
        0 <= collateral_value(snapshot, price) <= snapshot.debt,
{
    let product = snapshot.collateral * price.inner;
    assert(product == price.inner * snapshot.collateral) by (nonlinear_arith)
        requires
            product == snapshot.collateral * price.inner,
    ;
    assert(0 <= product) by (nonlinear_arith)
        requires
            product == snapshot.collateral * price.inner,
    ;
    let floor = product / DIV as int;
    let debt = snapshot.debt as int;
    vstd::arithmetic::div_mod::lemma_fundamental_div_mod(floor * DIV, debt);
    assert(floor < debt) by (nonlinear_arith)
        requires
            floor * DIV == debt * (floor * DIV / debt) + (floor * DIV) % debt,
            (floor * DIV) % debt < debt,
            floor * DIV / debt < DIV,
            0 < debt,
            DIV > 0,
    ;
}

/// A debt within the market debt buys no more than the collateral.
pub(crate) proof fn lemma_pro_rata_is_a_part(debt: int, collateral: int, market_debt: int)
    requires
        0 <= debt <= market_debt,
        0 <= collateral,
    ensures
        0 <= pro_rata(debt, collateral, market_debt) <= collateral,
{
    if market_debt != 0 {
        assert(0 <= debt * collateral / market_debt <= collateral) by (nonlinear_arith)
            requires
                0 <= debt <= market_debt,
                0 < market_debt,
                0 <= collateral,
        ;
    }
}

/// Pays `debt` its share of the collateral.
fn share_of_collateral(debt: u128, collateral: u128, market_debt: u128) -> (share: u128)
    requires
        debt <= market_debt,
    ensures
        share == pro_rata(debt as int, collateral as int, market_debt as int),
        share <= collateral,
{
    proof {
        lemma_pro_rata_is_a_part(debt as int, collateral as int, market_debt as int);
    }
    match mul_div_floor(debt, collateral, market_debt) {
        Some(share) => share,
        None => 0,
    }
}

/// What the Insurance Fund pays of `shortfall`.
fn insurance_fund_cover(fund: Payable, shortfall: u128) -> (cover: u128)
    ensures
        cover == fund_cover(fund, shortfall as int),
        cover <= shortfall,
{
    reducible_debit(fund, shortfall).0
}

/// Splits a below-par debt between the Insurance Fund and the market.
///
/// Returns the market's debt and the fund's cover.
fn below_par_split(debt: u128, value: u128, fund: Payable) -> (split: (u128, u128))
    requires
        value <= debt,
    ensures
        split.1 == fund_cover(fund, debt - value),
        split.0 == debt - split.1,
{
    let cover = insurance_fund_cover(fund, debt - value);
    match insurance_adjusted(debt, value, cover) {
        Some(split) => (split.market_cancel_debt, split.effective_cover),
        None => (debt - cover, cover),
    }
}

/// Price a recovery head. This is the only recovery regime selection of the redemption logic.
pub fn price_recovery(
    snapshot: &Snapshot,
    price: FixedU128,
    budget: u128,
    config: &RedemptionConfig<u128>,
    fund: Payable,
) -> (plan: Result<RecoveryPlan, Error>)
    ensures
        plan == recovery_plan(*snapshot, price, budget, *config, fund),
{
    if !snapshot.status.is_final_recovery() || price.is_zero() {
        return Err(Error::NoRedeemableVault);
    }
    let ratio = match collateralization_ratio(&snapshot.position(), price) {
        Ok(CollateralRatio::Ratio(ratio)) => ratio,
        // A head without debt has nothing to settle, and an overflowing ratio gets no plan.
        Ok(CollateralRatio::DebtFree) => {
            return Err(Error::NoRedeemableVault);
        },
        Err(_) => {
            return Err(Error::NoRedeemableVault);
        },
    };
    let exited = ratio.inner > snapshot.initial_collateralization_ratio.inner;
    if exited && snapshot.debt >= snapshot.minimum_debt {
        return Err(Error::FinalRecoveryExitRequired);
    }
    if ratio.inner >= DIV {
        let bonus = if exited {
            FixedU128::zero()
        } else {
            recovery_bonus(
                ratio,
                config.final_recovery_bonus_buffer.into_fixed(),
                snapshot.redistribution_penalty,
            )
        };
        let debt = snapshot.size_within(budget);
        return match recovery_bonus_collateral_out(debt, bonus, price) {
            Some(payout) => {
                let collateral = if payout <= snapshot.collateral {
                    payout
                } else {
                    snapshot.collateral
                };
                Ok(RecoveryPlan::AbovePar { debt, collateral })
            },
            None => Err(Error::NoRedeemableVault),
        };
    }
    proof {
        lemma_below_par_value(*snapshot, price, ratio);
    }
    // The value rounds up, so that the fund does not cover what the collateral still is worth.
    let value = match mul_rate_ceil(snapshot.collateral, price) {
        Some(value) => value,
        None => {
            return Err(Error::NoRedeemableVault);
        },
    };
    let (market, cover) = below_par_split(snapshot.full_payoff(), value, fund);
    if budget >= market {
        return Ok(
            RecoveryPlan::BelowPar {
                debt: market,
                collateral: snapshot.collateral,
                insurance_cover: cover,
            },
        );
    }
    // A partial settlement excludes the terminal charge and Insurance Fund cover.
    let (market, debt) = if snapshot.terminal_interest_charge == 0 {
        (market, budget)
    } else {
        let (base_market, _) = below_par_split(snapshot.debt, value, fund);
        let cap = snapshot.partial_cap(base_market);
        (base_market, if cap <= budget {
            cap
        } else {
            budget
        })
    };
    Ok(
        RecoveryPlan::BelowPar {
            debt,
            collateral: share_of_collateral(debt, snapshot.collateral, market),
            insurance_cover: 0,
        },
    )
}

/// The part of `need` that one debit can take from a payer, and its preservation.
///
/// Less than `need` comes back only where `need` would leave the payer less than the minimum
/// balance and something is still payable; any other shortfall is an insufficient balance.
pub open spec fn fundable(payer: Payable, need: u128) -> Result<(u128, Preservation), Error> {
    let (funded, preservation) = reducible_debit_spec(payer, need);
    if funded < need && (preservation != Preservation::Preserve || funded == 0) {
        Err(Error::InsufficientStableBalance)
    } else {
        Ok((funded, preservation))
    }
}

/// The part of `need` one debit can take from the redeemer, and its preservation. A shortfall is
/// returned for pricing again only when `need` would leave less than the minimum balance and
/// something is still payable; any other shortfall is an insufficient balance.
pub fn fundable_budget(redeemer: Payable, need: u128) -> (funding: Result<
    (u128, Preservation),
    Error,
>)
    ensures
        funding == fundable(redeemer, need),
{
    let (funded, preservation) = reducible_debit(redeemer, need);
    if funded < need {
        if preservation != Preservation::Preserve {
            return Err(Error::InsufficientStableBalance);
        }
        if funded == 0 {
            return Err(Error::InsufficientStableBalance);
        }
    }
    Ok((funded, preservation))
}

/// Settlement of a recovery head that is ready to be paid for.
#[derive(Clone, Copy, PartialEq, Eq, Debug)]
pub struct RecoveryOrder<AccountId> {
    /// Owner of the head.
    pub owner: AccountId,
    /// What is paid and received.
    pub plan: RecoveryPlan,
    /// Preservation under which the redeemer is debited the plan's debt, if there is any.
    pub debit: Option<Preservation>,
}

impl<AccountId> RecoveryOrder<AccountId> {
    /// Preservation under which the Insurance Fund is debited the plan's cover, if there is any,
    /// where it can pay `fund` at that moment.
    pub open spec fn cover_from(self, fund: Payable) -> Option<Preservation> {
        if self.plan.covered() == 0 {
            None
        } else if self.plan.covered() < fund.expendable {
            Some(Preservation::Preserve)
        } else {
            Some(Preservation::Expendable)
        }
    }

    /// Decides how the Insurance Fund is debited the plan's cover, if there is any.
    ///
    /// `fund` is what the fund can pay once the redeemer was debited: the redeemer may be the fund
    /// itself, and then drains with the cover what their own debit left.
    pub fn withdraw_insurance_cover(&self, fund: Payable) -> (preservation: Option<Preservation>)
        ensures
            preservation == self.cover_from(fund),
    {
        let cover = self.plan.insurance_cover();
        if cover == 0 {
            None
        } else {
            Some(debit_preservation(fund, cover))
        }
    }
}

/// The plan that a redeemer can fund and the preservation of their debit, if there is any.
///
/// A plan that the redeemer could pay for only by leaving less than the minimum balance is priced
/// again at what keeps it.
pub open spec fn funded_plan(
    snapshot: Snapshot,
    price: FixedU128,
    config: RedemptionConfig<u128>,
    max_stable_to_spend: u128,
    redeemer: Payable,
    fund: Payable,
) -> Result<(RecoveryPlan, Option<Preservation>), Error> {
    let budget = least(max_stable_to_spend as int, redeemer.expendable as int) as u128;
    match recovery_plan(snapshot, price, budget, config, fund) {
        Err(error) => Err(error),
        Ok(plan) => if plan.paid() == 0 {
            Ok((plan, None))
        } else {
            match fundable(redeemer, plan.paid()) {
                Err(error) => Err(error),
                Ok((funded, preservation)) => if funded < plan.paid() {
                    match recovery_plan(snapshot, price, funded, config, fund) {
                        Err(error) => Err(error),
                        Ok(plan) => Ok((plan, Some(preservation))),
                    }
                } else {
                    Ok((plan, Some(preservation)))
                },
            }
        },
    }
}

/// The order that settles a recovery head on a redeemer's terms.
pub open spec fn recovery_order<AccountId>(
    owner: AccountId,
    snapshot: Snapshot,
    price: FixedU128,
    config: RedemptionConfig<u128>,
    terms: RedemptionTerms<u128>,
    redeemer: Payable,
    fund: Payable,
) -> Result<RecoveryOrder<AccountId>, Error> {
    match funded_plan(snapshot, price, config, terms.max_stable_to_spend, redeemer, fund) {
        Err(error) => Err(error),
        Ok((plan, debit)) => if !plan.progresses() {
            Err(Error::NoRedeemableVault)
        } else if plan.received() < scaled_floor(
            terms.min_collateral_out as int,
            plan.paid() as int,
            terms.max_stable_to_spend as int,
            u128::MAX as int,
        ) {
            Err(Error::SlippageExceeded)
        } else {
            Ok(RecoveryOrder { owner, plan, debit })
        },
    }
}

/// Sizes and prices the settlement of the `FinalRecovery` head in one step.
///
/// The redeemer funds the debt that the market cancels. When that cancels in full, the Insurance
/// Fund cover is part of the same payment, so that one settlement cancels the whole vault debt.
/// Recovery charges no fee, so the single debit may consume the redeemer's account: a spend that
/// would leave less than the minimum balance is priced again at the amount that keeps it.
pub fn redeem_recovery<AccountId>(
    owner: AccountId,
    snapshot: &Snapshot,
    price: FixedU128,
    config: &RedemptionConfig<u128>,
    terms: &RedemptionTerms<u128>,
    redeemer: Payable,
    fund: Payable,
) -> (order: Result<RecoveryOrder<AccountId>, Error>)
    ensures
        order == recovery_order(owner, *snapshot, price, *config, *terms, redeemer, fund),
{
    let budget = if terms.max_stable_to_spend <= redeemer.expendable {
        terms.max_stable_to_spend
    } else {
        redeemer.expendable
    };
    let plan = match price_recovery(snapshot, price, budget, config, fund) {
        Ok(plan) => plan,
        Err(error) => {
            return Err(error);
        },
    };
    let (plan, debit) = if plan.debt() == 0 {
        (plan, None)
    } else {
        match fundable_budget(redeemer, plan.debt()) {
            Err(error) => {
                return Err(error);
            },
            Ok((funded, preservation)) => {
                if funded < plan.debt() {
                    match price_recovery(snapshot, price, funded, config, fund) {
                        Ok(plan) => (plan, Some(preservation)),
                        Err(error) => {
                            return Err(error);
                        },
                    }
                } else {
                    (plan, Some(preservation))
                }
            },
        }
    };
    if plan.debt() == 0 && plan.insurance_cover() == 0 {
        return Err(Error::NoRedeemableVault);
    }
    // Recovery charges no fee, so the debt is the whole spend.
    let scaled_min = scale_floor(
        terms.min_collateral_out,
        plan.debt(),
        terms.max_stable_to_spend,
    );
    if plan.collateral() < scaled_min {
        return Err(Error::SlippageExceeded);
    }
    Ok(RecoveryOrder { owner, plan, debit })
}

/// A plan spends at most its budget, pays out at most the vault's collateral, cancels at most the
/// vault's payoff, and draws insurance cover only to complete the payoff.
pub proof fn law_recovery_plan_is_bounded(
    snapshot: Snapshot,
    price: FixedU128,
    budget: u128,
    config: RedemptionConfig<u128>,
    fund: Payable,
)
    ensures
        recovery_plan(snapshot, price, budget, config, fund) matches Ok(plan) ==> {
            &&& plan.paid() <= budget
            &&& plan.received() <= snapshot.collateral
            &&& plan.paid() + plan.covered() <= snapshot.payoff()
            &&& plan.covered() > 0 ==> plan.paid() + plan.covered() == snapshot.payoff()
            &&& plan.covered() > 0 ==> plan.received() == snapshot.collateral
        },
{
    if snapshot.status == VaultStatus::FinalRecovery && price.inner != 0 {
        let position = DebtCollateral { debt: snapshot.debt, collateral: snapshot.collateral };
        match collateralization_ratio_spec(position, price) {
            Ok(CollateralRatio::Ratio(ratio)) => {
                if ratio.inner < DIV {
                    lemma_below_par_value(snapshot, price, ratio);
                    let value = collateral_value(snapshot, price);
                    let market = snapshot.payoff() - fund_cover(fund, snapshot.payoff() - value);
                    if budget < market {
                        if snapshot.terminal_interest_charge == 0 {
                            lemma_pro_rata_is_a_part(
                                budget as int,
                                snapshot.collateral as int,
                                market,
                            );
                        } else {
                            let base = snapshot.debt - fund_cover(fund, snapshot.debt - value);
                            lemma_pro_rata_is_a_part(
                                least(snapshot.partial(base), budget as int),
                                snapshot.collateral as int,
                                base,
                            );
                        }
                    }
                }
            },
            _ => {},
        }
    }
}

/// An order's debits are clean: neither the redeemer's account nor the Insurance Fund keeps a
/// remainder below its minimum balance, and the redeemer never spends more than the terms allow.
/// The fund pays the cover where the redeemer's debit did not touch it.
pub proof fn law_recovery_order_debits_cleanly<AccountId>(
    owner: AccountId,
    snapshot: Snapshot,
    price: FixedU128,
    config: RedemptionConfig<u128>,
    terms: RedemptionTerms<u128>,
    redeemer: Payable,
    fund: Payable,
)
    requires
        redeemer.consistent(),
        fund.consistent(),
    ensures
        recovery_order(owner, snapshot, price, config, terms, redeemer, fund) matches Ok(order) ==> {
            &&& order.plan.paid() <= terms.max_stable_to_spend
            &&& order.debit is None <==> order.plan.paid() == 0
            &&& order.debit matches Some(preservation) ==> redeemer.clean_debit(
                order.plan.paid() as nat,
                preservation,
            )
            &&& order.cover_from(fund) is None <==> order.plan.covered() == 0
            &&& order.cover_from(fund) matches Some(preservation) ==> fund.clean_debit(
                order.plan.covered() as nat,
                preservation,
            )
        },
{
    let budget = least(terms.max_stable_to_spend as int, redeemer.expendable as int) as u128;
    law_recovery_plan_is_bounded(snapshot, price, budget, config, fund);
}

} // verus!
