//! What an ordinary redemption is charged and leaves as the dynamic fee, stated on amounts.

use crate::arithmetic::{Permill, DIV};
use crate::redemptions::climb_area::lost;
use crate::redemptions::fee_laws::{lemma_climb_is_ordered, lemma_mean_fee_by_rise};
use crate::redemptions::fees::{charged, rounded_fee, scaled_floor, DynamicFeeCurve};
use crate::redemptions::payout_laws::lemma_floor;
use crate::redemptions::recovery_laws::PART;
use crate::redemptions::redemption::fee_of;
use crate::redemptions::tranche_laws::{
    distance, headroom, lemma_climb_is_near, lemma_raised_is_the_climb, lemma_rate_by_shortfall,
    lemma_rise_loss, lemma_rounded_up, lemma_shortfall_is_near, pace, shortfall,
};
use vstd::prelude::*;

verus! {

/// Whether `cap` is the most that the dynamic part of a charged rate can be: the dynamic ceiling, or
/// what the base fee leaves of the fee ceiling if that is less.
pub open spec fn capped_at(curve: DynamicFeeCurve, cap: int) -> bool {
    let space = (curve.fee_ceiling.parts() - curve.base_fee.parts()) * PART;
    &&& 0 <= cap <= curve.dynamic_fee_ceiling.inner
    &&& space <= 0 ==> cap == 0
    &&& space > 0 ==> cap <= space && (cap == space || cap == curve.dynamic_fee_ceiling.inner)
}

/// A cap is what the curve computes.
proof fn lemma_capped_at(curve: DynamicFeeCurve, cap: int)
    requires
        curve.well_formed(),
        capped_at(curve, cap),
    ensures
        cap == curve.cap(),
        curve.base_fee.parts() <= curve.fee_ceiling.parts() ==> cap + curve.base_fee.parts() * PART
            <= curve.fee_ceiling.parts() * PART,
{
    let space = (curve.fee_ceiling.parts() - curve.base_fee.parts()) * PART;
    assert(space == curve.fee_ceiling.parts() * PART - curve.base_fee.parts() * PART)
        by (nonlinear_arith)
        requires
            space == (curve.fee_ceiling.parts() - curve.base_fee.parts()) * PART,
    ;
}

/// A rise is the redeemed share of the debt over the divisor: at most the exact one, and short of it
/// by less than one unit of the share and one of its own.
proof fn lemma_rise(curve: DynamicFeeCurve, redeemed: int)
    requires
        curve.divisor.inner > 0,
        0 <= redeemed <= curve.debt,
        0 < curve.debt,
    ensures
        0 <= curve.climb(redeemed),
        curve.climb(redeemed) * (curve.debt * curve.divisor.inner) <= redeemed * (DIV * DIV)
            < curve.debt * ((curve.climb(redeemed) + 1) * curve.divisor.inner + DIV),
{
    let d = curve.debt as int;
    let v = curve.divisor.inner as int;
    let share = curve.share(redeemed);
    let climb = curve.climb(redeemed);
    lemma_climb_is_near(curve, redeemed);
    lemma_floor(redeemed * DIV, d, 0);
    assert(redeemed * DIV / d <= DIV) by (nonlinear_arith)
        requires
            0 <= redeemed <= d,
            0 < d,
            DIV > 0,
    ;
    lemma_floor(share * DIV, v, 0);
    assert((d * v) * climb == climb * (d * v)) by (nonlinear_arith);
    let next = (climb + 1) * v;
    assert(share * DIV < next);
    assert((share + 1) * DIV <= next + DIV - 1) by (nonlinear_arith)
        requires
            share * DIV < next,
    ;
    assert((redeemed * DIV) * DIV < ((share + 1) * d) * DIV) by (nonlinear_arith)
        requires
            redeemed * DIV < (share + 1) * d,
            DIV > 0,
    ;
    assert(((share + 1) * d) * DIV == d * ((share + 1) * DIV) && (redeemed * DIV) * DIV == redeemed
        * (DIV * DIV)) by (nonlinear_arith);
    assert(d * ((share + 1) * DIV) <= d * (next + DIV)) by (nonlinear_arith)
        requires
            (share + 1) * DIV <= next + DIV - 1,
            0 < d,
    ;
}

/// The dynamic fee that is stored is the arrival fee plus the share of the stablecoin's debt that was
/// redeemed, over the divisor, up to rounding, and at most the ceiling: it stops at the ceiling only
/// where that sum reaches it. More than all of the debt is all of it.
pub proof fn law_raised_fee_is_the_arrival_fee_and_the_share(
    curve: DynamicFeeCurve,
    redeemed: int,
    share_of: int,
)
    requires
        curve.divisor.inner > 0,
        0 < curve.debt,
        0 <= redeemed,
        share_of <= redeemed,
        share_of <= curve.debt,
        share_of == redeemed || share_of == curve.debt,
        curve.decayed.inner <= curve.dynamic_fee_ceiling.inner,
    ensures
        ({
            let rise = curve.raised(redeemed) - curve.decayed.inner;
            &&& 0 <= rise
            &&& curve.raised(redeemed) <= curve.dynamic_fee_ceiling.inner
            &&& rise * (curve.debt * curve.divisor.inner) <= share_of * (DIV * DIV)
            &&& curve.raised(redeemed) < curve.dynamic_fee_ceiling.inner ==> share_of * (DIV * DIV)
                < curve.debt * ((rise + 1) * curve.divisor.inner + DIV)
        }),
{
    lemma_raised_is_the_climb(curve, redeemed);
    lemma_rise(curve, share_of);
    if redeemed > curve.debt {
        crate::redemptions::fee_laws::law_more_than_all_debt_is_priced_as_all_debt(curve, redeemed);
        lemma_raised_is_the_climb(curve, share_of);
    }
    let rise = curve.raised(redeemed) - curve.decayed.inner;
    let climb = curve.climb(share_of);
    let p = curve.debt * curve.divisor.inner;
    assert(curve.raised(redeemed) == curve.raised(share_of));
    lemma_raised_is_the_climb(curve, share_of);
    assert(rise * p <= climb * p) by (nonlinear_arith)
        requires
            rise <= climb,
            0 <= p,
            p == curve.debt * curve.divisor.inner,
    ;
}

/// Whether `rise` is what a redemption of `redeemed` raises the dynamic fee by: its share of the debt,
/// at most one, over the divisor, each rounded down.
pub open spec fn raises_by(curve: DynamicFeeCurve, redeemed: int, share: int, rise: int) -> bool {
    &&& redeemed >= curve.debt ==> share == DIV
    &&& redeemed < curve.debt ==> share * curve.debt <= redeemed * DIV < (share + 1) * curve.debt
    &&& rise * curve.divisor.inner <= share * DIV < (rise + 1) * curve.divisor.inner
}

/// A rise is what the curve computes.
proof fn lemma_raises_by(curve: DynamicFeeCurve, redeemed: int, share: int, rise: int)
    requires
        curve.divisor.inner > 0,
        0 <= redeemed,
        raises_by(curve, redeemed, share, rise),
    ensures
        share == curve.share(redeemed),
        rise == curve.climb(redeemed),
        0 <= rise,
{
    let d = curve.debt as int;
    let v = curve.divisor.inner as int;
    lemma_climb_is_ordered(curve, 0, redeemed);
    if d > 0 {
        lemma_floor(redeemed * DIV, d, DIV as int);
        if redeemed < d {
            lemma_floor(redeemed * DIV, d, share);
            lemma_floor(redeemed * DIV, d, share + 1);
            assert(redeemed * DIV < DIV * d) by (nonlinear_arith)
                requires
                    redeemed < d,
                    DIV > 0,
            ;
        } else {
            assert(redeemed * DIV >= DIV * d) by (nonlinear_arith)
                requires
                    redeemed >= d,
                    DIV > 0,
            ;
        }
    }
    lemma_floor(share * DIV, v, rise);
    lemma_floor(share * DIV, v, rise + 1);
}

/// The stored dynamic fee is exactly the arrival fee and the rise, or the ceiling if that is less.
pub proof fn law_raised_fee_is_exact(
    curve: DynamicFeeCurve,
    redeemed: int,
    share: int,
    rise: int,
)
    requires
        curve.divisor.inner > 0,
        0 <= redeemed,
        raises_by(curve, redeemed, share, rise),
    ensures
        curve.decayed.inner + rise <= curve.dynamic_fee_ceiling.inner ==> curve.raised(redeemed)
            == curve.decayed.inner + rise,
        curve.decayed.inner + rise > curve.dynamic_fee_ceiling.inner ==> curve.raised(redeemed)
            == curve.dynamic_fee_ceiling.inner,
{
    lemma_raises_by(curve, redeemed, share, rise);
    lemma_raised_is_the_climb(curve, redeemed);
}

/// The charged rate is exactly the base fee, the arrival fee and half of the rise, rounded down, where
/// the rise stays within the cap. Where it passes the cap, the dynamic part is the mean of the
/// arrival fee and the cap over the fraction of the redemption in which the climb gets there, and
/// the cap over the rest, the mean, the fraction and both products rounded down.
pub proof fn law_charged_rate_is_exact(
    curve: DynamicFeeCurve,
    redeemed: int,
    cap: int,
    share: int,
    rise: int,
    half: int,
    fraction: int,
    climbing: int,
    capped: int,
)
    requires
        curve.well_formed(),
        curve.base_fee.parts() <= curve.fee_ceiling.parts(),
        curve.divisor.inner > 0,
        0 <= redeemed,
        capped_at(curve, cap),
        curve.decayed.inner < cap,
        raises_by(curve, redeemed, share, rise),
        curve.decayed.inner + rise <= cap ==> 2 * half <= rise <= 2 * half + 1,
        curve.decayed.inner + rise > cap ==> {
            let mean = (curve.decayed.inner + cap) / 2;
            &&& fraction * rise <= (cap - curve.decayed.inner) * DIV < (fraction + 1) * rise
            &&& climbing * DIV <= fraction * mean < (climbing + 1) * DIV
            &&& capped * DIV <= (DIV - fraction) * cap < (capped + 1) * DIV
        },
    ensures
        ({
            let base = curve.base_fee.parts() * PART;
            &&& curve.decayed.inner + rise <= cap ==> curve.rate(redeemed) == base
                + curve.decayed.inner + half
            &&& curve.decayed.inner + rise > cap ==> curve.rate(redeemed) == base + climbing + capped
        }),
{
    lemma_capped_at(curve, cap);
    lemma_raises_by(curve, redeemed, share, rise);
    lemma_mean_fee_by_rise(curve, redeemed);
    let d = curve.decayed.inner as int;
    if d + rise > cap {
        let mean = (d + cap) / 2;
        let room = (cap - d) * DIV;
        lemma_floor(room, rise, fraction);
        lemma_floor(room, rise, fraction + 1);
        lemma_floor(fraction * mean, DIV as int, climbing);
        lemma_floor(fraction * mean, DIV as int, climbing + 1);
        lemma_floor((DIV - fraction) * cap, DIV as int, capped);
        lemma_floor((DIV - fraction) * cap, DIV as int, capped + 1);
    }
}

/// A redemption against no debt raises the dynamic fee as one of all debt does: by one over the
/// divisor, rounded down, to the ceiling at most.
pub proof fn law_raised_fee_without_debt(curve: DynamicFeeCurve, redeemed: int)
    requires
        curve.divisor.inner > 0,
        curve.debt == 0,
        0 <= redeemed,
        curve.decayed.inner <= curve.dynamic_fee_ceiling.inner,
    ensures
        ({
            let rise = curve.raised(redeemed) - curve.decayed.inner;
            &&& 0 <= rise
            &&& curve.raised(redeemed) <= curve.dynamic_fee_ceiling.inner
            &&& rise * curve.divisor.inner <= DIV * DIV
            &&& curve.raised(redeemed) < curve.dynamic_fee_ceiling.inner ==> DIV * DIV < (rise + 1)
                * curve.divisor.inner
        }),
{
    lemma_raised_is_the_climb(curve, redeemed);
    let v = curve.divisor.inner as int;
    let climb = curve.climb(redeemed);
    let rise = curve.raised(redeemed) - curve.decayed.inner;
    lemma_floor((DIV * DIV) as int, v, 0);
    assert(rise * v <= climb * v) by (nonlinear_arith)
        requires
            rise <= climb,
            0 < v,
    ;
}

/// A redemption whose rise stays below every cap is charged the base fee, the arrival fee and half of
/// the rise, up to rounding.
pub proof fn law_charged_rate_is_the_arrival_rate_and_half_the_rise(
    curve: DynamicFeeCurve,
    redeemed: int,
    cap: int,
)
    requires
        curve.well_formed(),
        curve.base_fee.parts() <= curve.fee_ceiling.parts(),
        curve.divisor.inner > 0,
        0 < curve.debt,
        0 <= redeemed <= curve.debt,
        capped_at(curve, cap),
        curve.decayed.inner <= cap,
        redeemed * (DIV * DIV) <= (cap - curve.decayed.inner) * (curve.debt * curve.divisor.inner),
    ensures
        ({
            let half = curve.rate(redeemed) - curve.base_fee.parts() * PART - curve.decayed.inner;
            &&& 0 <= half
            &&& (2 * half) * (curve.debt * curve.divisor.inner) <= redeemed * (DIV * DIV)
            &&& redeemed * (DIV * DIV) < curve.debt * ((2 * half + 2) * curve.divisor.inner + DIV)
        }),
{
    lemma_capped_at(curve, cap);
    lemma_rise(curve, redeemed);
    lemma_mean_fee_by_rise(curve, redeemed);
    let d = curve.debt as int;
    let v = curve.divisor.inner as int;
    let p = d * v;
    let climb = curve.climb(redeemed);
    let room = cap - curve.decayed.inner;
    assert(0 < p) by (nonlinear_arith)
        requires
            p == d * v,
            0 < d,
            0 < v,
    ;
    assert(climb <= room) by (nonlinear_arith)
        requires
            climb * p <= room * p,
            0 < p,
    ;
    let half = curve.rate(redeemed) - curve.base_fee.parts() * PART - curve.decayed.inner;
    assert(half == climb / 2);
    assert((2 * half) * p <= climb * p) by (nonlinear_arith)
        requires
            2 * half <= climb,
            0 < p,
    ;
    let low = (climb + 1) * v;
    let high = (2 * half + 2) * v;
    assert(low <= high) by (nonlinear_arith)
        requires
            climb + 1 <= 2 * half + 2,
            0 < v,
            low == (climb + 1) * v,
            high == (2 * half + 2) * v,
    ;
    assert(d * (low + DIV) <= d * (high + DIV)) by (nonlinear_arith)
        requires
            low <= high,
            0 < d,
    ;
}

/// A redemption that arrives at its cap or above is charged the base fee and the cap.
pub proof fn law_charged_rate_at_the_cap(curve: DynamicFeeCurve, redeemed: int, cap: int)
    requires
        curve.well_formed(),
        0 <= redeemed,
        capped_at(curve, cap),
        cap <= curve.decayed.inner,
    ensures
        curve.base_fee.parts() <= curve.fee_ceiling.parts() ==> curve.rate(redeemed)
            == curve.base_fee.parts() * PART + cap,
        curve.base_fee.parts() >= curve.fee_ceiling.parts() ==> curve.rate(redeemed)
            == curve.fee_ceiling.parts() * PART,
{
    lemma_capped_at(curve, cap);
    lemma_mean_fee_by_rise(curve, redeemed);
    if curve.divisor.inner != 0 {
        lemma_climb_is_ordered(curve, 0, redeemed);
    }
}

/// A redemption whose rise passes its cap is charged the base fee and the mean of the climb up to the
/// cap and of the cap from there: that lies below the cap by the square of the room to it, over
/// twice the rise, up to rounding.
pub proof fn law_charged_rate_is_the_mean_of_the_climb(
    curve: DynamicFeeCurve,
    redeemed: int,
    cap: int,
)
    requires
        curve.well_formed(),
        curve.base_fee.parts() <= curve.fee_ceiling.parts(),
        curve.divisor.inner > 0,
        0 < curve.debt,
        0 <= redeemed <= curve.debt,
        capped_at(curve, cap),
        curve.decayed.inner <= cap,
        redeemed * (DIV * DIV) >= (curve.debt * curve.divisor.inner) * (cap - curve.decayed.inner),
    ensures
        ({
            let pace = curve.debt * curve.divisor.inner;
            let rise = redeemed * (DIV * DIV);
            let room = pace * (cap - curve.decayed.inner);
            let below = curve.base_fee.parts() * PART + cap - curve.rate(redeemed);
            &&& 0 <= below
            &&& room * room - pace * rise <= 2 * (pace * rise) * below
            &&& 2 * (pace * rise) * below <= room * room + (DIV as int / curve.divisor.inner as int
                + 7) * (pace * rise)
        }),
{
    lemma_capped_at(curve, cap);
    lemma_shortfall_is_near(curve, redeemed);
    lemma_rate_by_shortfall(curve, redeemed);
    lemma_rise_loss(curve, redeemed);
    let p = pace(curve);
    let z = distance(redeemed);
    let most = DIV as int / curve.divisor.inner as int + 7;
    let loss = crate::redemptions::tranche_laws::rise_loss(curve, redeemed) + 5;
    assert(headroom(curve) == cap - curve.decayed.inner);
    let x = p * headroom(curve);
    assert(lost(x, z) == x * x);
    assert(0 <= p * z) by (nonlinear_arith)
        requires
            0 < p,
            z == redeemed * (DIV * DIV),
            0 <= redeemed,
    ;
    assert(loss * (p * z) <= most * (p * z)) by (nonlinear_arith)
        requires
            loss <= most,
            0 <= p * z,
    ;
    assert(curve.base_fee.parts() * PART + cap - curve.rate(redeemed) == shortfall(curve, redeemed));
}

/// A charged rate is the dynamic fee plus the base fee, or the fee ceiling if that is less.
pub proof fn law_rate_adds_the_base_fee(dynamic_fee: u128, base_fee: Permill, fee_ceiling: Permill)
    requires
        fee_ceiling.parts() <= 1_000_000,
    ensures
        ({
            let rate = charged(dynamic_fee as int, base_fee, fee_ceiling);
            let sum = dynamic_fee + base_fee.parts() * PART;
            &&& sum <= fee_ceiling.parts() * PART ==> rate == sum
            &&& sum > fee_ceiling.parts() * PART ==> rate == fee_ceiling.parts() * PART
        }),
{
}

/// A fee is the rate's part of the debt, rounded up to a whole unit.
pub proof fn law_fee_is_the_rates_part_of_the_debt(debt: int, rate: int, limit: int)
    ensures
        debt * rate <= limit * DIV ==> (rounded_fee(debt, rate, limit) - 1) * DIV < debt * rate
            <= rounded_fee(debt, rate, limit) * DIV,
        debt * rate > limit * DIV ==> rounded_fee(debt, rate, limit) == limit,
{
    lemma_rounded_up(debt * rate, DIV as int);
}

/// An ordinary redemption pays its charged rate's part of the debt that it cancels, rounded up to a
/// whole unit.
pub proof fn law_redemption_pays_its_rate(curve: DynamicFeeCurve, debt: u128)
    requires
        curve.well_formed(),
    ensures
        (fee_of(curve)(debt as int) - 1) * DIV < debt * curve.rate(debt as int) <= fee_of(curve)(
            debt as int,
        ) * DIV,
        0 <= fee_of(curve)(debt as int) <= debt,
{
    lemma_rate_by_shortfall(curve, debt as int);
    let rate = curve.rate(debt as int);
    assert(0 <= debt * rate <= debt * DIV) by (nonlinear_arith)
        requires
            0 <= rate <= DIV,
            0 <= debt,
    ;
    law_fee_is_the_rates_part_of_the_debt(debt as int, rate, u128::MAX as int);
    crate::redemptions::fee_laws::law_fee_is_at_most_the_debt(curve, debt as int, u128::MAX as int);
}

/// A zero divisor, which no valid policy has, leaves the rise without a bound: the stored fee is the
/// ceiling, and the charged rate the base fee and the cap.
pub proof fn law_rise_without_a_divisor(curve: DynamicFeeCurve, redeemed: int, cap: int)
    requires
        curve.well_formed(),
        curve.base_fee.parts() <= curve.fee_ceiling.parts(),
        curve.divisor.inner == 0,
        0 <= redeemed,
        capped_at(curve, cap),
    ensures
        curve.raised(redeemed) == curve.dynamic_fee_ceiling.inner,
        curve.rate(redeemed) == curve.base_fee.parts() * PART + cap,
{
    lemma_capped_at(curve, cap);
    lemma_mean_fee_by_rise(curve, redeemed);
}

/// A scaled floor is as much of the floor as `num` is of `denom`, rounded down and at most `limit`;
/// nothing of it is owed for nothing.
pub proof fn law_scaled_floor_is_a_share_of_the_floor(
    value: int,
    num: int,
    denom: int,
    limit: int,
)
    requires
        0 <= value <= limit,
        0 <= num,
        0 <= denom,
    ensures
        ({
            let floor = scaled_floor(value, num, denom, limit);
            &&& denom == 0 ==> floor == 0
            &&& denom > 0 && value * num < (limit + 1) * denom ==> floor * denom <= value * num < (
            floor + 1) * denom
            &&& denom > 0 && value * num >= (limit + 1) * denom ==> floor == limit
            &&& 0 < denom && num <= denom ==> floor * denom <= value * num < (floor + 1) * denom
        }),
{
    if denom > 0 {
        lemma_floor(value * num, denom, limit + 1);
        if num <= denom {
            assert(value * num < (limit + 1) * denom) by (nonlinear_arith)
                requires
                    0 <= value <= limit,
                    0 <= num <= denom,
                    0 < denom,
            ;
        }
    }
}

} // verus!
