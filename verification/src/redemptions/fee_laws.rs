//! What holds of the redemption fee as a whole.

use crate::arithmetic::{least, surplus, DIV};
use crate::balance::Balance;
use crate::redemptions::fees::{
    affordable, bisected, bought, charged, mean, rounded_fee, DynamicFeeCurve,
};
use crate::redemptions::types::{Millis, RedemptionConfig, RedemptionState};
use vstd::arithmetic::div_mod::{
    lemma_div_is_ordered, lemma_div_is_ordered_by_denominator, lemma_fundamental_div_mod,
};
use vstd::prelude::*;

verus! {

/// The dynamic fee in effect stays within the bounds of a valid policy.
pub proof fn law_effective_fee_is_within_the_policy<B: Balance>(
    state: RedemptionState,
    now: Millis,
    config: RedemptionConfig<B>,
)
    requires
        config.valid(),
    ensures
        config.dynamic_fee_floor.inner <= state.fee_at(now, config)
            <= config.dynamic_fee_ceiling.inner,
{
}

/// A larger redemption never represents a smaller share of the debt.
proof fn lemma_share_is_ordered(curve: DynamicFeeCurve, less: int, more: int)
    requires
        0 <= less <= more,
    ensures
        0 <= curve.share(less) <= curve.share(more) <= DIV,
{
    if curve.debt != 0 {
        assert(0 <= less * DIV <= more * DIV) by (nonlinear_arith)
            requires
                0 <= less <= more,
                DIV > 0,
        ;
        lemma_div_is_ordered(less * DIV, more * DIV, curve.debt as int);
        lemma_div_is_ordered(0, less * DIV, curve.debt as int);
    }
}

/// A larger redemption never raises the dynamic fee by less.
pub(crate) proof fn lemma_climb_is_ordered(curve: DynamicFeeCurve, less: int, more: int)
    requires
        0 <= less <= more,
        curve.divisor.inner != 0,
    ensures
        0 <= curve.climb(less) <= curve.climb(more) <= DIV * DIV,
{
    lemma_share_is_ordered(curve, less, more);
    let a = curve.share(less) * DIV;
    let b = curve.share(more) * DIV;
    assert(0 <= a <= b <= DIV * DIV) by (nonlinear_arith)
        requires
            a == curve.share(less) * DIV,
            b == curve.share(more) * DIV,
            0 <= curve.share(less) <= curve.share(more) <= DIV,
            DIV > 0,
    ;
    lemma_div_is_ordered(a, b, curve.divisor.inner as int);
    lemma_div_is_ordered(0, a, curve.divisor.inner as int);
    lemma_div_is_ordered_by_denominator(b, 1, curve.divisor.inner as int);
}

/// A larger redeemed amount never leaves a lower dynamic fee.
pub proof fn law_raised_fee_is_monotonic(curve: DynamicFeeCurve, less: int, more: int)
    requires
        0 <= less <= more,
    ensures
        curve.raised(less) <= curve.raised(more),
{
    if curve.divisor.inner != 0 {
        lemma_climb_is_ordered(curve, less, more);
    }
}

/// A redemption never lowers the dynamic fee it arrives at, but to the ceiling, and never lifts it
/// above the ceiling.
pub proof fn law_raised_fee_lies_between_arrival_and_ceiling(curve: DynamicFeeCurve, redeemed: int)
    requires
        0 <= redeemed,
    ensures
        least(curve.decayed.inner as int, curve.dynamic_fee_ceiling.inner as int) <= curve.raised(
            redeemed,
        ) <= curve.dynamic_fee_ceiling.inner,
{
    if curve.divisor.inner != 0 {
        lemma_climb_is_ordered(curve, 0, redeemed);
    }
}

/// The charged rate never exceeds the fee ceiling.
pub proof fn law_charged_rate_is_at_most_the_fee_ceiling(curve: DynamicFeeCurve, redeemed: int)
    ensures
        curve.rate(redeemed) <= curve.fee_ceiling.fixed(),
{
}

/// A redemption of nothing pays nothing, and leaves the arrival fee, at most the ceiling, where
/// the stablecoin has debt.
pub proof fn law_redeeming_nothing_costs_and_moves_nothing(curve: DynamicFeeCurve, limit: int)
    requires
        0 <= limit,
    ensures
        rounded_fee(0, curve.rate(0), limit) == 0,
        curve.debt > 0 && curve.divisor.inner > 0 ==> curve.raised(0) == least(
            curve.decayed.inner as int,
            curve.dynamic_fee_ceiling.inner as int,
        ),
{
    assert(0 * curve.rate(0) == 0);
    if curve.debt > 0 && curve.divisor.inner > 0 {
        assert(0int / curve.debt as int == 0) by (nonlinear_arith)
            requires
                curve.debt > 0,
        ;
        assert(0int / curve.divisor.inner as int == 0) by (nonlinear_arith)
            requires
                curve.divisor.inner > 0,
        ;
        assert(0int * DIV == 0);
    }
}

/// An amount above the total debt is priced as the total debt.
pub proof fn law_more_than_all_debt_is_priced_as_all_debt(curve: DynamicFeeCurve, redeemed: int)
    requires
        curve.debt <= redeemed,
    ensures
        curve.rate(redeemed) == curve.rate(curve.debt as int),
        curve.raised(redeemed) == curve.raised(curve.debt as int),
{
    if curve.debt != 0 {
        lemma_share_is_ordered(curve, curve.debt as int, redeemed);
        assert(curve.debt * DIV / curve.debt as int == DIV) by (nonlinear_arith)
            requires
                curve.debt > 0,
        ;
    }
    assert(curve.share(redeemed) == curve.share(curve.debt as int));
}

/// The middle of a capped climb, and what the climb's fraction takes off the ceiling.
pub open spec fn half_headroom(decayed: int, ceiling: int) -> int {
    ceiling - mean(decayed, ceiling)
}

/// A capped mean is the ceiling less the climb's share of half the headroom, rounded down by less
/// than two units.
pub(crate) proof fn lemma_capped_mean_is_near(fraction: int, decayed: int, ceiling: int)
    requires
        0 <= fraction <= DIV,
        0 <= decayed <= ceiling <= DIV,
    ensures
        ({
            let value = fraction * mean(decayed, ceiling) / DIV as int + (DIV - fraction) * ceiling
                / DIV as int;
            let loss = fraction * half_headroom(decayed, ceiling);
            &&& DIV * value <= DIV * ceiling - loss < DIV * (value + 2)
            &&& 0 <= value <= ceiling
            &&& 0 <= fraction * mean(decayed, ceiling) / DIV as int <= DIV
            &&& 0 <= (DIV - fraction) * ceiling / DIV as int <= DIV
        }),
{
    let m = mean(decayed, ceiling);
    let a = fraction * m;
    let b = (DIV - fraction) * ceiling;
    assert(a + b == DIV * ceiling - fraction * (ceiling - m)) by (nonlinear_arith)
        requires
            a == fraction * m,
            b == (DIV - fraction) * ceiling,
    ;
    assert(0 <= a <= DIV * DIV && 0 <= b <= DIV * DIV) by (nonlinear_arith)
        requires
            a == fraction * m,
            b == (DIV - fraction) * ceiling,
            0 <= fraction <= DIV,
            0 <= m <= DIV,
            0 <= ceiling <= DIV,
    ;
    assert(0 <= fraction * (ceiling - m)) by (nonlinear_arith)
        requires
            0 <= fraction,
            0 <= ceiling - m,
    ;
    lemma_fundamental_div_mod(a, DIV as int);
    lemma_fundamental_div_mod(b, DIV as int);
}

/// Fraction of a redemption over which a fee climbs to its cap.
pub open spec fn fraction_at(decayed: int, cap: int, rise: int) -> int {
    surplus(cap, decayed) * DIV / rise
}

/// Mean dynamic fee of a redemption that arrives at `decayed` and rises by `rise` under `cap`.
pub open spec fn mean_at(decayed: int, cap: int, rise: int) -> int {
    if decayed + rise <= cap {
        decayed + rise / 2
    } else if decayed >= cap {
        cap
    } else {
        fraction_at(decayed, cap, rise) * mean(decayed, cap) / DIV as int + (DIV - fraction_at(
            decayed,
            cap,
            rise,
        )) * cap / DIV as int
    }
}

/// A climb that passes its cap takes a proper fraction of the redemption to reach it.
pub(crate) proof fn lemma_fraction(decayed: int, cap: int, rise: int)
    requires
        0 <= decayed < cap <= DIV,
        cap < decayed + rise,
    ensures
        ({
            let fraction = fraction_at(decayed, cap, rise);
            &&& 0 <= fraction <= DIV
            &&& fraction * rise <= (cap - decayed) * DIV < (fraction + 1) * rise
        }),
{
    let headroom = cap - decayed;
    let fraction = fraction_at(decayed, cap, rise);
    lemma_fundamental_div_mod(headroom * DIV, rise);
    assert(0 <= headroom * DIV / rise <= DIV) by (nonlinear_arith)
        requires
            0 < headroom < rise,
            DIV > 0,
    ;
    assert(fraction * rise <= headroom * DIV < (fraction + 1) * rise) by (nonlinear_arith)
        requires
            headroom * DIV == rise * fraction + (headroom * DIV) % rise,
            0 <= (headroom * DIV) % rise < rise,
    ;
}

/// The mean fee of a redemption depends on what it raises the fee by alone.
pub(crate) proof fn lemma_mean_fee_by_rise(curve: DynamicFeeCurve, redeemed: int)
    requires
        curve.well_formed(),
        0 <= redeemed,
    ensures
        0 <= curve.cap() <= DIV,
        curve.divisor.inner == 0 ==> curve.mean_fee(redeemed) == curve.cap(),
        curve.divisor.inner != 0 ==> curve.mean_fee(redeemed) == mean_at(
            curve.decayed.inner as int,
            curve.cap(),
            curve.climb(redeemed),
        ),
        0 <= curve.mean_fee(redeemed) <= curve.cap(),
{
    let d = curve.decayed.inner as int;
    let c = curve.cap();
    assert(DIV * c / DIV as int == c);
    if curve.divisor.inner != 0 {
        lemma_climb_is_ordered(curve, 0, redeemed);
        let x = curve.climb(redeemed);
        if d + x > c {
            if d >= c {
                assert(curve.climbing_fraction(redeemed, c) == 0) by {
                    if x != 0 {
                        assert(0 * DIV / x == 0) by (nonlinear_arith)
                            requires
                                x > 0,
                        ;
                    }
                }
                assert(0 * mean(d, c) == 0);
            } else {
                lemma_fraction(d, c, x);
                let f = fraction_at(d, c, x);
                lemma_capped_mean_is_near(f, d, c);
            }
        }
    } else {
        assert(0 * mean(d, c) == 0);
    }
}

/// Neither a higher arrival nor a larger rise lowers the mean fee by more than a unit.
proof fn lemma_mean_is_nearly_monotonic(d1: int, d2: int, c: int, x1: int, x2: int)
    requires
        0 <= d1 <= d2,
        0 <= c <= DIV,
        0 <= x1 <= x2,
    ensures
        mean_at(d1, c, x1) <= mean_at(d2, c, x2) + 1,
{
    if d1 < c && d1 + x1 > c {
        lemma_fraction(d1, c, x1);
        lemma_capped_mean_is_near(fraction_at(d1, c, x1), d1, c);
    }
    if d2 < c && d2 + x2 > c {
        lemma_fraction(d2, c, x2);
        let f2 = fraction_at(d2, c, x2);
        let k2 = half_headroom(d2, c);
        let v2 = mean_at(d2, c, x2);
        lemma_capped_mean_is_near(f2, d2, c);
        if d1 + x1 <= c {
            let room = c - mean_at(d1, c, x1);
            assert(f2 * k2 <= DIV * room) by (nonlinear_arith)
                requires
                    0 <= f2 <= DIV,
                    0 <= k2 <= room,
            ;
        } else {
            let f1 = fraction_at(d1, c, x1);
            let k1 = half_headroom(d1, c);
            let h1 = c - d1;
            let h2 = c - d2;
            assert(h2 * DIV <= h1 * DIV) by (nonlinear_arith)
                requires
                    h2 <= h1,
                    DIV > 0,
            ;
            assert(0 <= h2 * DIV) by (nonlinear_arith)
                requires
                    0 <= h2,
                    DIV > 0,
            ;
            lemma_div_is_ordered_by_denominator(h2 * DIV, x1, x2);
            lemma_div_is_ordered(h2 * DIV, h1 * DIV, x1);
            assert(f2 * k2 <= f1 * k1) by (nonlinear_arith)
                requires
                    0 <= f2 <= f1,
                    0 <= k2 <= k1,
            ;
        }
    }
}

/// A mean fee grows by at most half of what the rise grows by, and three units.
proof fn lemma_mean_is_nearly_continuous(d: int, c: int, x1: int, x2: int)
    requires
        0 <= d,
        0 <= c <= DIV,
        0 <= x1 <= x2,
    ensures
        mean_at(d, c, x2) <= mean_at(d, c, x1) + (x2 - x1) / 2 + 3,
{
    if d < c && d + x2 > c {
        let h = c - d;
        let k = half_headroom(d, c);
        let f2 = fraction_at(d, c, x2);
        let v2 = mean_at(d, c, x2);
        lemma_fraction(d, c, x2);
        lemma_capped_mean_is_near(f2, d, c);
        if d + x1 <= c {
            // The capped mean lies below the mean that the same rise has without a cap.
            let above = v2 - d;
            assert(2 * x2 * (DIV * h - f2 * k) <= DIV * (x2 * x2) + 2 * x2 * k) by (nonlinear_arith)
                requires
                    h * DIV < (f2 + 1) * x2,
                    h <= 2 * k,
                    0 <= k,
                    0 < x2,
                    DIV > 0,
                    0 < h,
            ;
            assert(2 * (DIV * above) <= DIV * x2 + 2 * k) by (nonlinear_arith)
                requires
                    2 * x2 * (DIV * h - f2 * k) <= DIV * (x2 * x2) + 2 * x2 * k,
                    DIV * above <= DIV * h - f2 * k,
                    0 < x2,
            ;
        } else {
            let f1 = fraction_at(d, c, x1);
            let v1 = mean_at(d, c, x1);
            lemma_fraction(d, c, x1);
            lemma_capped_mean_is_near(f1, d, c);
            let gap = x2 - x1;
            assert(2 * ((f1 - f2) * k) <= DIV * gap + 2 * k) by {
                assert((f1 - f2) * (x1 * x2) <= h * DIV * gap + x1 * x2) by (nonlinear_arith)
                    requires
                        f1 * x1 <= h * DIV,
                        h * DIV < (f2 + 1) * x2,
                        gap == x2 - x1,
                        0 < x1 <= x2,
                ;
                assert(2 * (h * k) <= x1 * x2) by (nonlinear_arith)
                    requires
                        2 * k <= h + 1,
                        0 < h,
                        h + 1 <= x1 <= x2,
                ;
                assert(2 * ((f1 - f2) * k) * (x1 * x2) <= (DIV * gap + 2 * k) * (x1 * x2))
                    by (nonlinear_arith)
                    requires
                        (f1 - f2) * (x1 * x2) <= h * DIV * gap + x1 * x2,
                        2 * (h * k) <= x1 * x2,
                        0 <= k,
                        0 <= gap,
                        DIV > 0,
                        0 < x1,
                        0 < x2,
                ;
                assert(2 * ((f1 - f2) * k) <= DIV * gap + 2 * k) by (nonlinear_arith)
                    requires
                        2 * ((f1 - f2) * k) * (x1 * x2) <= (DIV * gap + 2 * k) * (x1 * x2),
                        0 < x1,
                        0 < x2,
                ;
            }
            assert((f1 - f2) * k == f1 * k - f2 * k) by (nonlinear_arith);
        }
    }
}

/// A redemption's fee never exceeds the debt it cancels.
pub proof fn law_fee_is_at_most_the_debt(curve: DynamicFeeCurve, redeemed: int, limit: int)
    requires
        0 <= redeemed,
        curve.well_formed(),
    ensures
        rounded_fee(redeemed, curve.rate(redeemed), limit) <= redeemed,
{
    let rate = curve.rate(redeemed);
    lemma_mean_fee_by_rise(curve, redeemed);
    assert(0 <= redeemed * rate <= redeemed * DIV) by (nonlinear_arith)
        requires
            0 <= redeemed,
            0 <= rate <= DIV,
    ;
}

/// Neither a larger redemption nor a higher arrival fee lowers the charged rate, but for one unit
/// of rounding.
pub proof fn law_charged_rate_is_monotonic(
    curve: DynamicFeeCurve,
    higher: DynamicFeeCurve,
    less: int,
    more: int,
)
    requires
        curve.well_formed(),
        curve.decayed.inner <= higher.decayed.inner,
        higher == (DynamicFeeCurve { decayed: higher.decayed, ..curve }),
        0 <= less <= more,
    ensures
        curve.rate(less) <= higher.rate(more) + 1,
{
    lemma_mean_fee_by_rise(curve, less);
    lemma_mean_fee_by_rise(higher, more);
    if curve.divisor.inner != 0 {
        lemma_climb_is_ordered(curve, less, more);
        assert(curve.climb(more) == higher.climb(more));
        lemma_mean_is_nearly_monotonic(
            curve.decayed.inner as int,
            higher.decayed.inner as int,
            curve.cap(),
            curve.climb(less),
            curve.climb(more),
        );
    }
}

/// Neither a larger redemption nor a higher arrival fee lowers the fee by more than the precision
/// of the rate, rounded up.
pub proof fn law_fee_is_monotonic(
    curve: DynamicFeeCurve,
    higher: DynamicFeeCurve,
    less: int,
    more: int,
    limit: int,
)
    requires
        curve.well_formed(),
        curve.decayed.inner <= higher.decayed.inner,
        higher == (DynamicFeeCurve { decayed: higher.decayed, ..curve }),
        0 <= less <= more,
    ensures
        rounded_fee(less, curve.rate(less), limit) <= rounded_fee(more, higher.rate(more), limit)
            + more / DIV as int + 1,
{
    law_charged_rate_is_monotonic(curve, higher, less, more);
    lemma_mean_fee_by_rise(curve, less);
    lemma_mean_fee_by_rise(higher, more);
    let r1 = curve.rate(less);
    let r2 = higher.rate(more);
    assert(less * r1 <= more * r2 + more) by (nonlinear_arith)
        requires
            0 <= less <= more,
            0 <= r1 <= r2 + 1,
    ;
    assert(0 <= less * r1) by (nonlinear_arith)
        requires
            0 <= less,
            0 <= r1,
    ;
}

/// The charged rate has no jump: it grows by at most half of what the dynamic fee's rise grows by,
/// and three units of rounding, also where the dynamic fee reaches its cap.
pub proof fn law_charged_rate_is_continuous(curve: DynamicFeeCurve, less: int, more: int)
    requires
        curve.well_formed(),
        curve.divisor.inner > 0,
        0 <= less <= more,
    ensures
        curve.rate(more) <= curve.rate(less) + (curve.climb(more) - curve.climb(less)) / 2 + 3,
{
    lemma_mean_fee_by_rise(curve, less);
    lemma_mean_fee_by_rise(curve, more);
    lemma_climb_is_ordered(curve, less, more);
    lemma_mean_is_nearly_continuous(
        curve.decayed.inner as int,
        curve.cap(),
        curve.climb(less),
        curve.climb(more),
    );
}

/// A bisection between a debt that fits and one that does not finds a debt that fits beside one
/// that does not.
proof fn lemma_bisected(fee: spec_fn(int) -> int, budget: int, low: int, high: int)
    requires
        0 <= low <= high <= budget,
        low == 0 || affordable(low, fee(low), budget),
        high == budget || !affordable(high + 1, fee(high + 1), budget),
    ensures
        ({
            let debt = bisected(fee, budget, low, high);
            &&& low <= debt <= high
            &&& debt == 0 || affordable(debt, fee(debt), budget)
            &&& debt == budget || !affordable(debt + 1, fee(debt + 1), budget)
        }),
    decreases high - low,
{
    if low < high {
        let mid = low + (high - low) / 2 + 1;
        if affordable(mid, fee(mid), budget) {
            lemma_bisected(fee, budget, mid, high);
        } else {
            lemma_bisected(fee, budget, low, mid - 1);
        }
    }
}

/// The debt that a budget buys fits in the budget with its fee, and one unit more does not.
pub proof fn law_bought_debt_fits_and_one_more_does_not(fee: spec_fn(int) -> int, budget: int)
    requires
        0 <= budget,
    ensures
        0 <= bought(fee, budget) <= budget,
        bought(fee, budget) == 0 || bought(fee, budget) + fee(bought(fee, budget)) <= budget,
        bought(fee, budget) == budget || bought(fee, budget) + 1 + fee(bought(fee, budget) + 1)
            > budget,
{
    if !affordable(budget, fee(budget), budget) {
        lemma_bisected(fee, budget, 0, budget);
    }
}

/// Under a fee that never falls as the debt grows, no debt that fits in the budget with its fee is
/// greater than the one bought.
pub proof fn law_bought_debt_is_the_greatest(fee: spec_fn(int) -> int, budget: int, debt: int)
    requires
        0 <= budget,
        forall|less: int, more: int| 0 <= less <= more ==> #[trigger] fee(less) <= #[trigger] fee(
            more,
        ),
        forall|at: int| 0 <= at ==> 0 <= #[trigger] fee(at),
        0 <= debt,
        debt + fee(debt) <= budget,
    ensures
        debt <= bought(fee, budget),
{
    law_bought_debt_fits_and_one_more_does_not(fee, budget);
    let found = bought(fee, budget);
    if debt > found {
        assert(fee(found + 1) <= fee(debt));
    }
}

} // verus!
