//! The fee of an ordinary redemption.

use crate::arithmetic::{
    greatest, least, rounded, saturated, scaled, surplus, ArithmeticError, FixedU128, Permill,
    Rounding, DIV, MILLION,
};
use crate::balance::Balance;
use crate::primitives::math::{lemma_rounded_is_natural, mul_div, mul_div_floor};
use crate::redemptions::types::{Millis, RedemptionConfig, RedemptionState};
use vstd::arithmetic::power2::pow2;
use vstd::prelude::*;

verus! {

/// Inner value of one half.
pub const HALF: u128 = 500_000_000_000_000_000;

/// The dynamic fee after `elapsed` of a half-life of `period`: one halving per whole period, and
/// within a period the secant `1 - f / 2` above the exact decay.
pub open spec fn decayed_fee(fee: int, elapsed: int, period: int) -> int {
    if fee == 0 || elapsed == 0 {
        fee
    } else if period == 0 || elapsed / period >= 128 {
        0
    } else {
        let halved = fee / pow2((elapsed / period) as nat) as int;
        let rest = elapsed % period;
        if rest == 0 {
            halved
        } else {
            halved * (DIV - rounded(DIV * rest, period, Rounding::NearestPrefDown) / 2) / DIV as int
        }
    }
}

/// Decays the dynamic fee deterministically and monotonically over `elapsed_ms`.
///
/// More elapsed time cannot produce a higher rate. The fractional half-life uses the secant upper
/// bound of `2^(-f)` on `[0, 1)`: the result is continuous across period boundaries, and equal to
/// or slightly above the exact decay up to rounding.
pub fn decay_dynamic_fee(dynamic_fee: FixedU128, elapsed_ms: u64, period_ms: u64) -> (decayed:
    FixedU128)
    ensures
        decayed.inner == decayed_fee(
            dynamic_fee.inner as int,
            elapsed_ms as int,
            period_ms as int,
        ),
{
    if dynamic_fee.is_zero() || elapsed_ms == 0 {
        return dynamic_fee;
    }
    if period_ms == 0 {
        return FixedU128::zero();
    }
    let whole = elapsed_ms / period_ms;
    if whole >= 128 {
        return FixedU128::zero();
    }
    proof {
        vstd::bits::lemma_u128_shr_is_div(dynamic_fee.inner, whole as u128);
    }
    let halved = FixedU128::from_inner(dynamic_fee.inner >> (whole as u128));
    let remainder = elapsed_ms % period_ms;
    if remainder == 0 {
        return halved;
    }
    proof {
        lemma_fraction_is_at_most_one(remainder as int, period_ms as int);
    }
    let fraction = FixedU128::from_rational(remainder as u128, period_ms as u128);
    let factor = FixedU128::one().saturating_sub(
        fraction.saturating_mul(FixedU128::from_inner(HALF)),
    );
    proof {
        let inner = halved.inner as int;
        let scale = factor.inner as int;
        assert(inner * scale / DIV as int <= inner) by (nonlinear_arith)
            requires
                0 <= scale <= DIV,
                0 <= inner,
                DIV == 1_000_000_000_000_000_000,
        ;
    }
    halved.saturating_mul(factor)
}

/// A part of a period, as a share rounded to the nearest, is at most one.
proof fn lemma_fraction_is_at_most_one(rest: int, period: int)
    requires
        0 <= rest < period,
    ensures
        0 <= rounded(DIV * rest, period, Rounding::NearestPrefDown) <= DIV,
{
    let down = DIV * rest / period;
    assert(0 <= down && (down < DIV || DIV == 0)) by (nonlinear_arith)
        requires
            0 <= rest < period,
            DIV > 0,
            down == DIV * rest / period,
    ;
}

impl RedemptionState {
    /// The dynamic fee at `now`, after time decay and within the policy bounds.
    pub open spec fn fee_at<B>(self, now: Millis, config: RedemptionConfig<B>) -> int {
        least(
            greatest(
                decayed_fee(
                    self.dynamic_fee.inner as int,
                    surplus(now as int, self.last_fee_operation as int),
                    config.dynamic_fee_decay_period as int,
                ),
                config.dynamic_fee_floor.inner as int,
            ),
            config.dynamic_fee_ceiling.inner as int,
        )
    }

    /// Gets the dynamic fee at `now` after time decay and application of the policy bounds.
    pub fn dynamic_fee_at<B>(&self, now: Millis, config: &RedemptionConfig<B>) -> (fee: FixedU128)
        ensures
            fee.inner == self.fee_at(now, *config),
    {
        decay_dynamic_fee(
            self.dynamic_fee,
            now.saturating_sub(self.last_fee_operation),
            config.dynamic_fee_decay_period,
        ).max(config.dynamic_fee_floor).min(config.dynamic_fee_ceiling)
    }
}

/// The mean of two dynamic fees, rounded down.
pub open spec fn mean(a: int, b: int) -> int {
    (a + b) / 2
}

/// The model behind an ordinary redemption's fee.
///
/// Redemption of debt share `u` raises the dynamic fee by `u / divisor`. The rate climbs at a
/// constant pace from the arrival fee to that terminal fee while the redemption cancels its debt.
/// The redemption pays the integral of the rate over the debt that it cancels. Without a cap, this
/// is the arrival rate plus half of the rise, applied to the whole amount.
#[derive(Clone, Copy, PartialEq, Eq, Debug)]
pub struct DynamicFeeCurve {
    /// Dynamic fee at the start of the redemption, after decay and policy bounds.
    pub decayed: FixedU128,
    /// Stablecoin-wide debt before the redemption.
    pub debt: u128,
    /// Divisor applied to the redeemed share before that share increases the dynamic fee.
    pub divisor: FixedU128,
    /// Caps the stored dynamic fee.
    pub dynamic_fee_ceiling: FixedU128,
    /// Constant component that each unit pays.
    pub base_fee: Permill,
    /// Maximum charged rate, including the base fee.
    pub fee_ceiling: Permill,
}

impl DynamicFeeCurve {
    /// Whether the per-million bounds are shares, as every such value is.
    pub open spec fn well_formed(self) -> bool {
        &&& 0 <= self.base_fee.parts() <= MILLION
        &&& 0 <= self.fee_ceiling.parts() <= MILLION
    }

    /// Share of the debt that `redeemed` represents, at most one; one without debt.
    pub open spec fn share(self, redeemed: int) -> int {
        if self.debt == 0 {
            DIV as int
        } else {
            least(redeemed * DIV / self.debt as int, DIV as int)
        }
    }

    /// Rise of the dynamic fee that redemption of `redeemed` causes, for a nonzero divisor.
    pub open spec fn climb(self, redeemed: int) -> int {
        self.share(redeemed) * DIV / self.divisor.inner as int
    }

    /// Whether the dynamic fee after redemption of `redeemed` is a representable number.
    pub open spec fn bounded(self, redeemed: int) -> bool {
        self.divisor.inner != 0 && self.decayed.inner + self.climb(redeemed) <= u128::MAX
    }

    /// Stored dynamic fee after redemption of `redeemed`.
    pub open spec fn raised(self, redeemed: int) -> int {
        if self.bounded(redeemed) {
            least(
                self.decayed.inner + self.climb(redeemed),
                self.dynamic_fee_ceiling.inner as int,
            )
        } else {
            self.dynamic_fee_ceiling.inner as int
        }
    }

    /// Cap of the dynamic component of the charged rate: the lower of its ceiling and the
    /// fee-ceiling space above the base fee.
    pub open spec fn cap(self) -> int {
        least(
            self.dynamic_fee_ceiling.inner as int,
            surplus(self.fee_ceiling.fixed(), self.base_fee.fixed()),
        )
    }

    /// Fraction of a capped redemption over which the dynamic fee climbs to `ceiling`.
    pub open spec fn climbing_fraction(self, redeemed: int, ceiling: int) -> int {
        let headroom = surplus(ceiling, self.decayed.inner as int);
        if self.divisor.inner == 0 {
            0
        } else {
            match scaled(headroom, DIV as int, self.climb(redeemed), Rounding::Down) {
                Some(fraction) => least(fraction as int, DIV as int),
                None => 0,
            }
        }
    }

    /// Mean dynamic fee of a redemption of `redeemed` that reaches `ceiling`: the mean of the
    /// climb over its fraction, the ceiling over the rest.
    pub open spec fn capped_mean(self, redeemed: int, ceiling: int) -> int {
        let fraction = self.climbing_fraction(redeemed, ceiling);
        saturated(
            saturated(fraction * mean(self.decayed.inner as int, ceiling) / DIV as int) + saturated(
                (DIV - fraction) * ceiling / DIV as int,
            ),
        )
    }

    /// Mean dynamic fee while `redeemed` is cancelled.
    pub open spec fn mean_fee(self, redeemed: int) -> int {
        if self.bounded(redeemed) && self.decayed.inner + self.climb(redeemed) <= self.cap() {
            mean(self.decayed.inner as int, self.decayed.inner + self.climb(redeemed))
        } else {
            self.capped_mean(redeemed, self.cap())
        }
    }

    /// Rate that `redeemed` pays.
    pub open spec fn rate(self, redeemed: int) -> int {
        charged(self.mean_fee(redeemed), self.base_fee, self.fee_ceiling)
    }

    /// Builds a curve in its `u128` arithmetic domain.
    pub fn try_new<B: Balance>(decayed: FixedU128, debt: B, config: &RedemptionConfig<B>) -> (curve:
        Result<DynamicFeeCurve, ArithmeticError>)
        ensures
            curve matches Ok(curve) && {
                &&& curve.decayed == decayed
                &&& curve.debt == debt.amount()
                &&& curve.divisor == config.dynamic_fee_increase_divisor
                &&& curve.dynamic_fee_ceiling == config.dynamic_fee_ceiling
                &&& curve.base_fee == config.base_fee
                &&& curve.fee_ceiling == config.fee_ceiling
            },
    {
        Ok(
            DynamicFeeCurve {
                decayed,
                debt: debt.into_u128(),
                divisor: config.dynamic_fee_increase_divisor,
                dynamic_fee_ceiling: config.dynamic_fee_ceiling,
                base_fee: config.base_fee,
                fee_ceiling: config.fee_ceiling,
            },
        )
    }

    /// Calculates the share of stablecoin debt that `redeemed` represents.
    ///
    /// The result has a maximum of one because an amount above the total debt cannot represent a
    /// larger share.
    fn redeemed_share(&self, redeemed: u128) -> (share: FixedU128)
        ensures
            share.inner == self.share(redeemed as int),
    {
        match FixedU128::checked_from_rational(redeemed, self.debt) {
            Some(share) => share.min(FixedU128::one()),
            None => FixedU128::one(),
        }
    }

    /// Calculates the rise of the dynamic fee that redemption of `redeemed` causes: its debt share
    /// over the divisor.
    ///
    /// Returns `None` for a zero divisor, which policy validation rejects.
    pub fn rise(&self, redeemed: u128) -> (rise: Option<FixedU128>)
        ensures
            rise is None <==> self.divisor.inner == 0,
            rise matches Some(rise) ==> rise.inner == self.climb(redeemed as int),
    {
        let share = self.redeemed_share(redeemed);
        proof {
            self.lemma_share_is_a_share(redeemed as int);
            if self.divisor.inner != 0 {
                lemma_share_over_divisor_fits(share.inner as int, self.divisor.inner as int);
            }
        }
        share.checked_div(self.divisor)
    }

    /// Calculates the dynamic fee after redemption of `redeemed`, without its ceiling.
    ///
    /// Returns `None` if the rise has no bound or the sum does not fit.
    pub fn dynamic_fee_after(&self, redeemed: u128) -> (fee: Option<FixedU128>)
        ensures
            fee is Some <==> self.bounded(redeemed as int),
            fee matches Some(fee) ==> fee.inner == self.decayed.inner + self.climb(redeemed as int),
    {
        match self.rise(redeemed) {
            Some(rise) => self.decayed.checked_add(rise),
            None => None,
        }
    }

    /// Calculates the stored dynamic fee after redemption of `redeemed`.
    pub fn raised_dynamic_fee(&self, redeemed: u128) -> (fee: FixedU128)
        ensures
            fee.inner == self.raised(redeemed as int),
    {
        match self.dynamic_fee_after(redeemed) {
            Some(fee) => fee.min(self.dynamic_fee_ceiling),
            None => self.dynamic_fee_ceiling,
        }
    }

    /// Calculates the rate that `redeemed` pays.
    ///
    /// The rate is the base fee plus the mean dynamic fee during the redemption, limited by the
    /// fee ceiling.
    pub fn charged_rate(&self, redeemed: u128) -> (rate: FixedU128)
        ensures
            rate.inner == self.rate(redeemed as int),
    {
        let ceiling = self.dynamic_fee_ceiling.min(
            self.fee_ceiling.saturating_sub(self.base_fee).into_fixed(),
        );
        let average = match self.dynamic_fee_after(redeemed) {
            Some(terminal) => {
                if terminal.inner <= ceiling.inner {
                    midpoint(self.decayed, terminal)
                } else {
                    self.capped_average_dynamic_fee(redeemed, ceiling)
                }
            },
            None => self.capped_average_dynamic_fee(redeemed, ceiling),
        };
        fee_rate(average, self.base_fee, self.fee_ceiling)
    }

    /// Calculates the fee that `redeemed` pays and rounds it up.
    pub fn fee<B: Balance>(&self, redeemed: B) -> (fee: B)
        ensures
            fee.amount() == rounded_fee(
                redeemed.amount() as int,
                self.rate(redeemed.amount() as int),
                B::limit() as int,
            ),
    {
        redemption_fee(redeemed, self.charged_rate(redeemed.into_u128()))
    }

    /// Calculates the mean dynamic fee when redemption of `redeemed` reaches `ceiling`.
    ///
    /// The dynamic fee reaches the ceiling after a fraction of the redemption. That fraction pays
    /// the mean of its climb, and the rest pays the ceiling.
    fn capped_average_dynamic_fee(&self, redeemed: u128, ceiling: FixedU128) -> (average: FixedU128)
        ensures
            average.inner == self.capped_mean(redeemed as int, ceiling.inner as int),
    {
        let headroom = ceiling.saturating_sub(self.decayed);
        // A zero divisor reaches the ceiling at once. An arrival at or above the ceiling has no
        // climb.
        let climb = match self.rise(redeemed) {
            Some(rise) => match headroom.checked_div(rise) {
                Some(climb) => climb.min(FixedU128::one()),
                None => FixedU128::zero(),
            },
            None => FixedU128::zero(),
        };
        let climbing = midpoint(self.decayed, ceiling);
        let flat = FixedU128::one().saturating_sub(climb).saturating_mul(ceiling);
        climb.saturating_mul(climbing).saturating_add(flat)
    }

    /// A share lies between zero and one.
    proof fn lemma_share_is_a_share(self, redeemed: int)
        requires
            0 <= redeemed,
        ensures
            0 <= self.share(redeemed) <= DIV,
    {
        if self.debt != 0 {
            lemma_rounded_is_natural(redeemed * DIV, self.debt as int, Rounding::Down);
        }
    }
}

/// The quotient of a share and a nonzero divisor is a representable number.
proof fn lemma_share_over_divisor_fits(share: int, divisor: int)
    requires
        0 <= share <= DIV,
        0 < divisor,
    ensures
        0 <= share * DIV / divisor <= DIV * DIV,
        DIV * DIV <= u128::MAX,
{
    assert(0 <= share * DIV / divisor <= DIV * DIV) by (nonlinear_arith)
        requires
            0 <= share <= DIV,
            0 < divisor,
            DIV == 1_000_000_000_000_000_000,
    ;
}

/// Calculates the mean of two dynamic fees. It rounds down at the `10^-18` resolution.
fn midpoint(a: FixedU128, b: FixedU128) -> (middle: FixedU128)
    ensures
        middle.inner == mean(a.inner as int, b.inner as int),
{
    let low = a.min(b);
    low.saturating_add(a.max(b).saturating_sub(low).saturating_mul(FixedU128::from_inner(HALF)))
}

/// The dynamic fee plus the base fee, at most the fee ceiling.
pub open spec fn charged(dynamic_fee: int, base_fee: Permill, fee_ceiling: Permill) -> int {
    least(saturated(dynamic_fee + base_fee.fixed()), fee_ceiling.fixed())
}

/// Calculates `min(dynamic_fee + base_fee, fee_ceiling)`.
///
/// The per-million bounds convert without loss to the fixed-point domain of the dynamic fee.
pub fn fee_rate(dynamic_fee: FixedU128, base_fee: Permill, fee_ceiling: Permill) -> (rate:
    FixedU128)
    ensures
        rate.inner == charged(dynamic_fee.inner as int, base_fee, fee_ceiling),
{
    dynamic_fee.saturating_add(base_fee.into_fixed()).min(fee_ceiling.into_fixed())
}

/// `ceil(debt * rate)`, at most `limit`.
pub open spec fn rounded_fee(debt: int, rate: int, limit: int) -> int {
    least(rounded(debt * rate, DIV as int, Rounding::Up), limit)
}

/// Calculates the fee on `debt_cancelled` at `fee_rate` and rounds it up.
pub fn redemption_fee<B: Balance>(debt_cancelled: B, fee_rate: FixedU128) -> (fee: B)
    ensures
        fee.amount() == rounded_fee(
            debt_cancelled.amount() as int,
            fee_rate.inner as int,
            B::limit() as int,
        ),
{
    let debt = debt_cancelled.into_u128();
    proof {
        B::max_holds();
        assert(0 <= debt * fee_rate.inner) by (nonlinear_arith);
        lemma_rounded_is_natural(debt * fee_rate.inner, DIV as int, Rounding::Up);
        if rounded(debt * fee_rate.inner, DIV as int, Rounding::Up) <= B::limit() {
            B::of_holds(rounded(debt * fee_rate.inner, DIV as int, Rounding::Up) as nat);
        }
    }
    match mul_div(debt, fee_rate.inner, DIV, Rounding::Up) {
        Some(fee) => fee,
        None => B::max_value(),
    }
}

/// Whether `debt` and its fee cost at most `budget`.
pub open spec fn affordable(debt: int, fee: int, budget: int) -> bool {
    debt + fee <= budget
}

/// Bisects `low..=high` for the debt that `budget` buys when `fee` prices each debt.
pub open spec fn bisected(fee: spec_fn(int) -> int, budget: int, low: int, high: int) -> int
    decreases high - low,
{
    if low >= high {
        low
    } else {
        let mid = low + (high - low) / 2 + 1;
        if affordable(mid, fee(mid), budget) {
            bisected(fee, budget, mid, high)
        } else {
            bisected(fee, budget, low, mid - 1)
        }
    }
}

/// The debt that `budget` buys when `fee` prices each debt: the whole budget if that leaves no
/// fee to pay, else what the bisection of the budget finds.
pub open spec fn bought(fee: spec_fn(int) -> int, budget: int) -> int {
    if affordable(budget, fee(budget), budget) {
        budget
    } else {
        bisected(fee, budget, 0, budget)
    }
}

/// Whether every result of `fee_for` is the one that `fee` gives.
pub open spec fn prices_by<B: Balance, F: Fn(B) -> B>(
    fee_for: F,
    fee: spec_fn(int) -> int,
) -> bool {
    forall|at: B, charged: B| #[trigger]
        call_ensures(fee_for, (at,), charged) ==> charged.amount() == fee(at.amount() as int)
}

/// Whether `debt` and the fee that it causes fit in `budget`.
fn fits<B: Balance, F: Fn(B) -> B>(debt: u128, fee_for: &F, budget: u128) -> (fitting: bool)
    requires
        forall|at: B| call_requires(*fee_for, (at,)),
        debt <= B::limit(),
    ensures
        forall|fee: spec_fn(int) -> int|
            prices_by(*fee_for, fee) ==> fitting == affordable(
                debt as int,
                #[trigger] fee(debt as int),
                budget as int,
            ),
{
    proof {
        B::of_holds(debt as nat);
    }
    let at = match B::try_from_u128(debt) {
        Some(at) => at,
        None => {
            return false;
        },
    };
    let charged = fee_for(at);
    proof {
        B::max_holds();
        charged.holds_its_amount();
        assert(call_ensures(*fee_for, (at,), charged));
    }
    match debt.checked_add(charged.into_u128()) {
        Some(total) => total <= budget,
        None => false,
    }
}

/// Calculates the maximum debt that `budget` can buy, including the fee.
///
/// This debt and the monotonic `fee_for` that it causes have a sum no greater than `budget`.
pub fn max_debt_for_budget<B: Balance, F: Fn(B) -> B>(budget: B, fee_for: F) -> (debt: B)
    requires
        forall|at: B| call_requires(fee_for, (at,)),
    ensures
        debt.amount() <= budget.amount(),
        forall|fee: spec_fn(int) -> int|
            prices_by(fee_for, fee) ==> debt.amount() == #[trigger] bought(
                fee,
                budget.amount() as int,
            ),
{
    let limit = budget.into_u128();
    if limit == 0 {
        return budget;
    }
    proof {
        budget.holds_its_amount();
    }
    // A budget without a fee buys itself. Only a nonzero fee requires the search.
    let mut high = limit;
    if fits(high, &fee_for, limit) {
        return budget;
    }
    let mut low = 0u128;
    while low < high
        invariant
            forall|at: B| call_requires(fee_for, (at,)),
            low <= high <= limit <= B::limit(),
            forall|fee: spec_fn(int) -> int|
                prices_by(fee_for, fee) ==> #[trigger] bought(fee, limit as int) == bisected(
                    fee,
                    limit as int,
                    low as int,
                    high as int,
                ),
        decreases high - low,
    {
        let mid = low + (high - low) / 2 + 1;
        if fits(mid, &fee_for, limit) {
            low = mid;
        } else {
            high = mid - 1;
        }
    }
    proof {
        B::of_holds(low as nat);
    }
    match B::try_from_u128(low) {
        Some(debt) => debt,
        None => budget,
    }
}

/// `floor(value * num / denom)`, at most `limit`, or zero for a zero denominator.
pub open spec fn scaled_floor(value: int, num: int, denom: int, limit: int) -> int {
    if denom == 0 {
        0
    } else {
        least(value * num / denom, limit)
    }
}

/// Scales the user's slippage floor to the amount spent during a partial fill.
pub fn scale_floor<B: Balance>(value: B, num: B, denom: B) -> (floor: B)
    ensures
        floor.amount() == scaled_floor(
            value.amount() as int,
            num.amount() as int,
            denom.amount() as int,
            B::limit() as int,
        ),
{
    proof {
        B::max_holds();
    }
    if denom.into_u128() == 0 {
        return B::zero();
    }
    proof {
        let product = (value.amount() * num.amount()) as int;
        assert(0 <= product) by (nonlinear_arith)
            requires
                product == value.amount() * num.amount(),
                0 <= value.amount(),
                0 <= num.amount(),
        ;
        lemma_rounded_is_natural(product, denom.amount() as int, Rounding::Down);
        if product / denom.amount() as int <= B::limit() {
            B::of_holds((product / denom.amount() as int) as nat);
        }
    }
    match mul_div_floor(value, num, denom) {
        Some(floor) => floor,
        None => B::max_value(),
    }
}

} // verus!
