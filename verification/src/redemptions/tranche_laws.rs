//! What a redemption costs at once, and in tranches.

use crate::arithmetic::{least, rounded, surplus, FixedU128, Rounding, DIV};
use crate::redemptions::climb_area::{
    lemma_faster_pace_pays_off, lemma_lost_adds_up, lemma_lost_by_distance, lemma_lost_by_pace,
    lemma_lost_by_start, lemma_lost_is_bounded, lemma_lost_scales, lemma_mean_is_near,
    lemma_rest_step, lemma_shortfall_step, lost,
};
use crate::redemptions::fee_laws::{
    law_raised_fee_lies_between_arrival_and_ceiling, lemma_climb_is_ordered, lemma_mean_fee_by_rise,
};
use crate::redemptions::fees::{charged, rounded_fee, DynamicFeeCurve};
use vstd::arithmetic::div_mod::lemma_fundamental_div_mod;
use vstd::prelude::*;

verus! {

/// The debt that tranches cancel.
pub open spec fn total(tranches: Seq<int>) -> int
    decreases tranches.len(),
{
    if tranches.len() == 0 {
        0
    } else {
        tranches[0] + total(tranches.drop_first())
    }
}

/// The curve that a tranche leaves: the fee that it raised, and the debt that it did not cancel.
pub open spec fn after_tranche(curve: DynamicFeeCurve, tranche: int) -> DynamicFeeCurve {
    DynamicFeeCurve {
        decayed: FixedU128 { inner: curve.raised(tranche) as u128 },
        debt: (curve.debt - tranche) as u128,
        ..curve
    }
}

/// The dynamic fee that tranches leave, each arriving at the fee that the one before it left.
pub open spec fn tranches_raise(curve: DynamicFeeCurve, tranches: Seq<int>) -> int
    decreases tranches.len(),
{
    if tranches.len() == 0 {
        curve.decayed.inner as int
    } else {
        tranches_raise(after_tranche(curve, tranches[0]), tranches.drop_first())
    }
}

/// The fees of tranches, each against the debt that those before it left.
pub open spec fn tranches_pay(curve: DynamicFeeCurve, tranches: Seq<int>, limit: int) -> int
    decreases tranches.len(),
{
    if tranches.len() == 0 {
        0
    } else {
        rounded_fee(tranches[0], curve.rate(tranches[0]), limit) + tranches_pay(
            after_tranche(curve, tranches[0]),
            tranches.drop_first(),
            limit,
        )
    }
}

/// Whether tranches split a redemption that the debt covers.
pub open spec fn splits(curve: DynamicFeeCurve, tranches: Seq<int>) -> bool {
    &&& curve.well_formed()
    &&& curve.divisor.inner > 0
    &&& forall|i: int| 0 <= i < tranches.len() ==> 0 <= #[trigger] tranches[i]
    &&& total(tranches) <= curve.debt
}

/// Precision of a dynamic fee's rise: what a unit of rounding in the share comes to, and a unit of
/// its own, both rounded up.
pub open spec fn rise_slack(curve: DynamicFeeCurve) -> int {
    DIV as int / curve.divisor.inner as int + 2
}

/// What is left of split tranches is split too.
pub(crate) proof fn lemma_rest_splits(curve: DynamicFeeCurve, tranches: Seq<int>)
    requires
        splits(curve, tranches),
        tranches.len() > 0,
    ensures
        splits(after_tranche(curve, tranches[0]), tranches.drop_first()),
        0 <= tranches[0] <= total(tranches),
        0 <= total(tranches.drop_first()),
        total(tranches) == tranches[0] + total(tranches.drop_first()),
        after_tranche(curve, tranches[0]).debt == curve.debt - tranches[0],
        after_tranche(curve, tranches[0]).decayed.inner == curve.raised(tranches[0]),
        after_tranche(curve, tranches[0]).cap() == curve.cap(),
{
    let rest = tranches.drop_first();
    assert forall|i: int| 0 <= i < rest.len() implies 0 <= #[trigger] rest[i] by {
        assert(rest[i] == tranches[i + 1]);
    }
    lemma_total_is_natural(rest);
    law_raised_fee_lies_between_arrival_and_ceiling(curve, tranches[0]);
}

/// Tranches cancel no negative debt.
pub(crate) proof fn lemma_total_is_natural(tranches: Seq<int>)
    requires
        forall|i: int| 0 <= i < tranches.len() ==> 0 <= #[trigger] tranches[i],
    ensures
        0 <= total(tranches),
    decreases tranches.len(),
{
    if tranches.len() > 0 {
        let rest = tranches.drop_first();
        assert forall|i: int| 0 <= i < rest.len() implies 0 <= #[trigger] rest[i] by {
            assert(rest[i] == tranches[i + 1]);
        }
        lemma_total_is_natural(rest);
    }
}

/// A redemption raises the dynamic fee by its climb, to the ceiling at most.
pub(crate) proof fn lemma_raised_is_the_climb(curve: DynamicFeeCurve, redeemed: int)
    requires
        curve.divisor.inner > 0,
        0 <= redeemed,
    ensures
        0 <= curve.climb(redeemed),
        curve.raised(redeemed) == least(
            curve.decayed.inner + curve.climb(redeemed),
            curve.dynamic_fee_ceiling.inner as int,
        ),
{
    lemma_climb_is_ordered(curve, 0, redeemed);
}

/// A quotient is rounded down by less than a unit.
pub(crate) proof fn lemma_quotient(numerator: int, denominator: int)
    requires
        0 < denominator,
    ensures
        denominator * (numerator / denominator) <= numerator < denominator * (numerator / denominator
            + 1),
{
    lemma_fundamental_div_mod(numerator, denominator);
    assert(denominator * (numerator / denominator + 1) == denominator * (numerator / denominator)
        + denominator) by (nonlinear_arith);
}

/// A climb lies within its precision below the exact one, redeemed over debt and divisor.
pub(crate) proof fn lemma_climb_is_near(curve: DynamicFeeCurve, redeemed: int)
    requires
        curve.divisor.inner > 0,
        0 <= redeemed <= curve.debt,
        0 < curve.debt,
    ensures
        0 <= curve.climb(redeemed),
        (curve.debt * curve.divisor.inner) * curve.climb(redeemed) <= redeemed * (DIV * DIV) <= (
        curve.debt * curve.divisor.inner) * (curve.climb(redeemed) + rise_slack(curve)),
{
    let d = curve.debt as int;
    let v = curve.divisor.inner as int;
    let share = curve.share(redeemed);
    let climb = curve.climb(redeemed);
    let per = DIV as int / v;
    lemma_climb_is_ordered(curve, 0, redeemed);
    lemma_quotient(redeemed * DIV, d);
    assert(redeemed * DIV / d <= DIV) by (nonlinear_arith)
        requires
            0 <= redeemed <= d,
            0 < d,
            DIV > 0,
    ;
    assert(share == redeemed * DIV / d);
    lemma_quotient(share * DIV, v);
    lemma_quotient(DIV as int, v);
    assert((d * v) * climb <= redeemed * (DIV * DIV)) by (nonlinear_arith)
        requires
            v * climb <= share * DIV,
            d * share <= redeemed * DIV,
            0 < d,
            0 < v,
            DIV > 0,
    ;
    assert(redeemed * (DIV * DIV) <= (d * v) * (climb + (per + 2))) by (nonlinear_arith)
        requires
            redeemed * DIV <= d * (share + 1),
            share * DIV <= v * (climb + 1),
            DIV <= v * (per + 1),
            0 < d,
            0 < v,
            DIV > 0,
    ;
}

/// The smaller debt that a tranche leaves makes the next one climb at least as much, so that the
/// climbs of two parts reach that of the whole but for the precision of a rise.
pub(crate) proof fn lemma_climb_is_subadditive(
    curve: DynamicFeeCurve,
    smaller: DynamicFeeCurve,
    first: int,
    second: int,
)
    requires
        curve.divisor.inner > 0,
        smaller.divisor == curve.divisor,
        smaller.debt == curve.debt - first,
        0 <= first,
        0 <= second,
        first + second <= curve.debt,
    ensures
        0 <= curve.climb(first),
        0 <= smaller.climb(second),
        curve.climb(first + second) <= curve.climb(first) + smaller.climb(second) + rise_slack(curve),
{
    let d = curve.debt as int;
    let v = curve.divisor.inner as int;
    lemma_climb_is_ordered(curve, 0, first);
    lemma_climb_is_ordered(smaller, 0, second);
    lemma_climb_is_ordered(curve, first, first + second);
    if second > 0 {
        let s = curve.share(first + second);
        let s1 = curve.share(first);
        let s2 = smaller.share(second);
        lemma_quotient((first + second) * DIV, d);
        lemma_quotient(first * DIV, d);
        lemma_quotient(second * DIV, d - first);
        assert(s <= s1 + s2 + 1) by {
            let q = (first + second) * DIV / d;
            let q1 = first * DIV / d;
            let q2 = second * DIV / (d - first);
            assert(q1 <= DIV) by (nonlinear_arith)
                requires
                    d * q1 <= first * DIV,
                    0 <= first <= d,
                    0 < d,
                    DIV > 0,
            ;
            assert(q2 <= DIV) by (nonlinear_arith)
                requires
                    (d - first) * q2 <= second * DIV,
                    0 < second <= d - first,
                    DIV > 0,
            ;
            assert(0 <= q2) by (nonlinear_arith)
                requires
                    q2 == second * DIV / (d - first),
                    0 < second,
                    0 < d - first,
                    DIV > 0,
            ;
            assert(q <= q1 + q2 + 1) by (nonlinear_arith)
                requires
                    d * q <= (first + second) * DIV,
                    first * DIV < d * (q1 + 1),
                    second * DIV < (d - first) * (q2 + 1),
                    0 <= q2,
                    0 <= first,
                    0 < second,
                    0 < d,
                    DIV > 0,
            ;
        }
        let c = curve.climb(first + second);
        let c1 = curve.climb(first);
        let c2 = smaller.climb(second);
        let per = DIV as int / v;
        lemma_quotient(s * DIV, v);
        lemma_quotient(s1 * DIV, v);
        lemma_quotient(s2 * DIV, v);
        lemma_quotient(DIV as int, v);
        assert(c < c1 + c2 + per + 3) by (nonlinear_arith)
            requires
                v * c <= s * DIV,
                s * DIV <= (s1 + s2 + 1) * DIV,
                s1 * DIV < v * (c1 + 1),
                s2 * DIV < v * (c2 + 1),
                DIV < v * (per + 1),
                0 < v,
        ;
    } else {
        assert(0 <= DIV as int / v) by (nonlinear_arith)
            requires
                v > 0,
                DIV > 0,
        ;
    }
}

/// Tranches leave a dynamic fee at least as high as one redemption of the same debt, but for the
/// precision of the rise at each split.
pub proof fn law_tranches_raise_the_fee_at_least_as_much_as_the_whole(
    curve: DynamicFeeCurve,
    tranches: Seq<int>,
)
    requires
        splits(curve, tranches),
        tranches.len() > 0,
    ensures
        curve.raised(total(tranches)) <= tranches_raise(curve, tranches) + (tranches.len() - 1)
            * rise_slack(curve),
    decreases tranches.len(),
{
    let first = tranches[0];
    let rest = tranches.drop_first();
    let smaller = after_tranche(curve, first);
    lemma_rest_splits(curve, tranches);
    lemma_raised_is_the_climb(curve, total(tranches));
    lemma_raised_is_the_climb(curve, first);
    if rest.len() == 0 {
        assert(total(rest) == 0);
        assert(tranches_raise(smaller, rest) == smaller.decayed.inner);
        assert((tranches.len() - 1) * rise_slack(curve) == 0) by (nonlinear_arith)
            requires
                tranches.len() == 1,
        ;
    } else {
        law_tranches_raise_the_fee_at_least_as_much_as_the_whole(smaller, rest);
        lemma_raised_is_the_climb(smaller, total(rest));
        lemma_climb_is_subadditive(curve, smaller, first, total(rest));
        assert((tranches.len() - 1) * rise_slack(curve) == (rest.len() - 1) * rise_slack(smaller)
            + rise_slack(curve)) by (nonlinear_arith)
            requires
                tranches.len() == rest.len() + 1,
                rise_slack(smaller) == rise_slack(curve),
        ;
    }
}

/// The climbs of tranches, without the ceiling.
pub open spec fn tranches_climb(curve: DynamicFeeCurve, tranches: Seq<int>) -> int
    decreases tranches.len(),
{
    if tranches.len() == 0 {
        0
    } else {
        curve.climb(tranches[0]) + tranches_climb(
            after_tranche(curve, tranches[0]),
            tranches.drop_first(),
        )
    }
}

/// Tranches raise the dynamic fee by their climbs, to the ceiling at most.
pub(crate) proof fn lemma_tranches_raise_their_climbs(curve: DynamicFeeCurve, tranches: Seq<int>)
    requires
        splits(curve, tranches),
        tranches.len() > 0,
    ensures
        tranches_raise(curve, tranches) == least(
            curve.decayed.inner + tranches_climb(curve, tranches),
            curve.dynamic_fee_ceiling.inner as int,
        ),
        0 <= tranches_climb(curve, tranches),
    decreases tranches.len(),
{
    let first = tranches[0];
    let rest = tranches.drop_first();
    let smaller = after_tranche(curve, first);
    lemma_rest_splits(curve, tranches);
    lemma_raised_is_the_climb(curve, first);
    if rest.len() == 0 {
        assert(tranches_raise(smaller, rest) == smaller.decayed.inner);
        assert(tranches_climb(smaller, rest) == 0);
    } else {
        lemma_tranches_raise_their_climbs(smaller, rest);
    }
}

/// Tranches climb no faster than against a debt of at most what they leave.
pub(crate) proof fn lemma_tranches_climb_is_bounded(curve: DynamicFeeCurve, tranches: Seq<int>, least_debt: int)
    requires
        splits(curve, tranches),
        0 < least_debt <= curve.debt - total(tranches),
    ensures
        (least_debt * curve.divisor.inner) * tranches_climb(curve, tranches) <= total(tranches) * (DIV
            * DIV),
    decreases tranches.len(),
{
    if tranches.len() > 0 {
        let first = tranches[0];
        let rest = tranches.drop_first();
        let smaller = after_tranche(curve, first);
        lemma_rest_splits(curve, tranches);
        lemma_tranches_climb_is_bounded(smaller, rest, least_debt);
        lemma_climb_is_near(curve, first);
        let d = curve.debt as int;
        let v = curve.divisor.inner as int;
        let climb = curve.climb(first);
        let more = tranches_climb(smaller, rest);
        let scale = (DIV * DIV) as int;
        assert((least_debt * v) * climb <= (d * v) * climb) by (nonlinear_arith)
            requires
                0 < least_debt <= d,
                0 < v,
                0 <= climb,
        ;
        assert((least_debt * v) * (climb + more) == (least_debt * v) * climb + (least_debt * v) * more)
            by (nonlinear_arith);
        assert((first + total(rest)) * scale == first * scale + total(rest) * scale)
            by (nonlinear_arith);
    } else {
        assert((least_debt * curve.divisor.inner) * 0 == 0);
    }
}

/// The most that tranches can raise the dynamic fee above what one redemption of `redeemed` raises
/// it to: the share of the debt that is left, less that of the whole debt, over the divisor, each
/// step rounded to the larger side.
pub open spec fn rise_excess(curve: DynamicFeeCurve, redeemed: int) -> int {
    let largest = rounded(redeemed * DIV, curve.debt - redeemed, Rounding::Up);
    let smallest = rounded(redeemed * DIV, curve.debt as int, Rounding::Down);
    rounded((largest - smallest) * DIV, curve.divisor.inner as int, Rounding::Up)
}

/// A quotient rounded up is the least integer at or above it.
pub(crate) proof fn lemma_rounded_up(numerator: int, denominator: int)
    requires
        0 < denominator,
    ensures
        numerator <= denominator * rounded(numerator, denominator, Rounding::Up) < numerator
            + denominator,
{
    lemma_fundamental_div_mod(numerator, denominator);
    let q = numerator / denominator;
    assert(denominator * (q + 1) == denominator * q + denominator) by (nonlinear_arith);
}

/// Tranches of less than the debt leave a dynamic fee above that of one redemption by no more than
/// their faster climb against the debt that is left, and a unit of rounding.
pub proof fn law_tranches_raise_the_fee_by_a_bounded_excess(
    curve: DynamicFeeCurve,
    tranches: Seq<int>,
)
    requires
        splits(curve, tranches),
        tranches.len() > 0,
        total(tranches) < curve.debt,
    ensures
        tranches_raise(curve, tranches) <= curve.raised(total(tranches)) + rise_excess(
            curve,
            total(tranches),
        ) + 1,
{
    let t = total(tranches);
    let d = curve.debt as int;
    let v = curve.divisor.inner as int;
    let left = d - t;
    let largest = rounded(t * DIV, left, Rounding::Up);
    let smallest = t * DIV / d;
    let climb = curve.climb(t);
    let climbs = tranches_climb(curve, tranches);
    let excess = rise_excess(curve, t);
    lemma_rest_splits(curve, tranches);
    lemma_raised_is_the_climb(curve, t);
    lemma_tranches_raise_their_climbs(curve, tranches);
    lemma_tranches_climb_is_bounded(curve, tranches, left);
    lemma_rounded_up(t * DIV, left);
    lemma_quotient(t * DIV, d);
    lemma_rounded_up((largest - smallest) * DIV, v);
    assert(smallest <= DIV) by (nonlinear_arith)
        requires
            d * smallest <= t * DIV,
            0 <= t <= d,
            0 < d,
            DIV > 0,
    ;
    lemma_quotient(smallest * DIV, v);
    assert(v * climbs <= largest * DIV) by (nonlinear_arith)
        requires
            (left * v) * climbs <= t * (DIV * DIV),
            t * DIV <= left * largest,
            0 < left,
            DIV > 0,
    ;
    assert(climbs <= climb + excess + 1) by (nonlinear_arith)
        requires
            v * climbs <= largest * DIV,
            smallest * DIV < v * (climb + 1),
            (largest - smallest) * DIV <= v * excess,
            0 < v,
    ;
    assert(0 <= excess) by (nonlinear_arith)
        requires
            (largest - smallest) * DIV <= v * excess,
            t * DIV <= left * largest,
            d * smallest <= t * DIV,
            0 < left <= d,
            0 <= t,
            0 < v,
            DIV > 0,
    ;
}

/// Debt and divisor together: the slower the dynamic fee climbs, the greater.
pub open spec fn pace(curve: DynamicFeeCurve) -> int {
    curve.debt * curve.divisor.inner
}

/// The distance below its cap at which a redemption arrives.
pub open spec fn headroom(curve: DynamicFeeCurve) -> int {
    surplus(curve.cap(), curve.decayed.inner as int)
}

/// The distance that a redemption climbs over, in units of the pace.
pub open spec fn distance(redeemed: int) -> int {
    redeemed * (DIV * DIV)
}

/// How far the mean fee of a redemption lies below the cap.
pub open spec fn shortfall(curve: DynamicFeeCurve, redeemed: int) -> int {
    curve.cap() - curve.mean_fee(redeemed)
}

/// What rounding takes off the rise of a redemption: the exact rise, rounded up, less the rise.
pub open spec fn rise_loss(curve: DynamicFeeCurve, redeemed: int) -> int {
    rounded(distance(redeemed), pace(curve), Rounding::Up) - curve.climb(redeemed)
}

/// Whether the debt that a tranche cancels lets `later` debt climb so much faster that this outweighs
/// what rounding takes off the tranche's rise: by the square of that, in units of the rate.
pub open spec fn outweighs(curve: DynamicFeeCurve, tranche: int, later: int) -> bool {
    let loss = rise_loss(curve, tranche);
    let left = (curve.debt - tranche) * curve.divisor.inner;
    (loss * loss) * (pace(curve) * left) <= (pace(curve) - left) * distance(later)
}

/// Twice what the rate of `later` debt misses of what rounding takes off a tranche's rise.
pub open spec fn missed_later(curve: DynamicFeeCurve, tranche: int, later: int) -> int {
    let loss = rise_loss(curve, tranche);
    if loss > 0 && outweighs(curve, tranche, later) {
        1
    } else {
        2 * loss
    }
}

/// Twice what rounding takes off the rates of tranches through their rises, each rate weighted by the
/// debt that pays it: what a tranche's rise loses, its own debt misses half of on average, and the
/// debt of the later tranches the whole of, or next to nothing where they climb much faster.
pub open spec fn rises_lost(curve: DynamicFeeCurve, tranches: Seq<int>) -> int
    decreases tranches.len(),
{
    if tranches.len() == 0 || curve.debt == 0 {
        0
    } else {
        let first = tranches[0];
        let rest = tranches.drop_first();
        rise_loss(curve, first) * first + missed_later(curve, first, total(rest)) * total(rest)
            + rises_lost(after_tranche(curve, first), rest)
    }
}

/// Rounding takes no more off a rise than its precision, and no less than nothing.
pub(crate) proof fn lemma_rise_loss(curve: DynamicFeeCurve, redeemed: int)
    requires
        curve.divisor.inner > 0,
        0 <= redeemed <= curve.debt,
        0 < curve.debt,
    ensures
        0 < pace(curve),
        0 <= rise_loss(curve, redeemed) <= rise_slack(curve),
        curve.divisor.inner * 2 >= DIV ==> rise_loss(curve, redeemed) <= 3,
        pace(curve) * curve.climb(redeemed) <= distance(redeemed) <= pace(curve) * (curve.climb(
            redeemed,
        ) + rise_loss(curve, redeemed)),
{
    let p = pace(curve);
    let z = distance(redeemed);
    let c = curve.climb(redeemed);
    let e = rise_slack(curve);
    let up = rounded(z, p, Rounding::Up);
    assert(0 < p) by (nonlinear_arith)
        requires
            p == curve.debt * curve.divisor.inner,
            0 < curve.debt,
            0 < curve.divisor.inner,
    ;
    lemma_climb_is_near(curve, redeemed);
    lemma_rounded_up(z, p);
    assert(c <= up <= c + e) by (nonlinear_arith)
        requires
            p * c <= z <= p * (c + e),
            z <= p * up < z + p,
            0 < p,
    ;
    if curve.divisor.inner * 2 >= DIV {
        lemma_climb_is_near_a_divisor(curve, redeemed);
        assert(up <= c + 3) by (nonlinear_arith)
            requires
                z < p * (c + 3),
                p * up < z + p,
                0 < p,
        ;
    }
}

/// Against a divisor of at least one half, a climb lies less than three units below the exact one.
proof fn lemma_climb_is_near_a_divisor(curve: DynamicFeeCurve, redeemed: int)
    requires
        curve.divisor.inner > 0,
        curve.divisor.inner * 2 >= DIV,
        0 <= redeemed <= curve.debt,
        0 < curve.debt,
    ensures
        distance(redeemed) < pace(curve) * (curve.climb(redeemed) + 3),
{
    let d = curve.debt as int;
    let v = curve.divisor.inner as int;
    let share = curve.share(redeemed);
    let climb = curve.climb(redeemed);
    lemma_quotient(redeemed * DIV, d);
    assert(redeemed * DIV / d <= DIV) by (nonlinear_arith)
        requires
            0 <= redeemed <= d,
            0 < d,
            DIV > 0,
    ;
    lemma_quotient(share * DIV, v);
    assert((share + 1) * DIV < v * (climb + 3)) by (nonlinear_arith)
        requires
            share * DIV < v * (climb + 1),
            DIV <= 2 * v,
    ;
    assert((redeemed * DIV) * DIV < (d * (share + 1)) * DIV) by (nonlinear_arith)
        requires
            redeemed * DIV < d * (share + 1),
            DIV > 0,
    ;
    assert(d * ((share + 1) * DIV) < d * (v * (climb + 3))) by (nonlinear_arith)
        requires
            (share + 1) * DIV < v * (climb + 3),
            0 < d,
    ;
    assert((d * (share + 1)) * DIV == d * ((share + 1) * DIV) && d * (v * (climb + 3)) == (d * v) * (
    climb + 3) && (redeemed * DIV) * DIV == redeemed * (DIV * DIV)) by (nonlinear_arith);
}

/// The shortfall of a redemption is what its exact climb loses, but for rounding.
#[verifier::spinoff_prover]
pub(crate) proof fn lemma_shortfall_is_near(curve: DynamicFeeCurve, redeemed: int)
    requires
        curve.well_formed(),
        curve.divisor.inner > 0,
        0 <= redeemed <= curve.debt,
        0 < curve.debt,
    ensures
        ({
            let p = pace(curve);
            let z = distance(redeemed);
            let loss = lost(p * headroom(curve), z);
            let twice = 2 * (p * z) * shortfall(curve, redeemed);
            loss - p * z <= twice <= loss + (rise_loss(curve, redeemed) + 5) * (p * z)
        }),
{
    let p = pace(curve);
    let z = distance(redeemed);
    let h = headroom(curve);
    let c = curve.climb(redeemed);
    let e = rise_loss(curve, redeemed);
    let short = shortfall(curve, redeemed);
    let a = lost(h, c);
    let b = lost(p * h, z);
    assert(0 < p) by (nonlinear_arith)
        requires
            p == curve.debt * curve.divisor.inner,
            0 < curve.debt,
            0 < curve.divisor.inner,
    ;
    lemma_mean_fee_by_rise(curve, redeemed);
    lemma_climb_is_near(curve, redeemed);
    lemma_rise_loss(curve, redeemed);
    lemma_mean_is_near(curve.decayed.inner as int, curve.cap(), c);
    assert(0 <= z) by (nonlinear_arith)
        requires
            z == redeemed * (DIV * DIV),
            0 <= redeemed,
    ;
    assert(0 <= p * h && 0 <= p * c && 0 <= p * z) by (nonlinear_arith)
        requires
            0 < p,
            0 <= h,
            0 <= c,
            0 <= z,
    ;
    if c == 0 {
        lemma_lost_is_bounded(p * h, z);
        assert(2 * (p * z) * short == 2 * (p * h) * z) by (nonlinear_arith)
            requires
                short == h,
        ;
        assert(z <= p * e) by (nonlinear_arith)
            requires
                z <= p * (c + e),
                c == 0,
        ;
        if p * h > z {
            assert(z * z <= (e + 5) * (p * z)) by (nonlinear_arith)
                requires
                    0 <= z <= p * e,
                    0 <= p * z,
                    0 <= e,
            ;
        } else {
            let x = p * h;
            assert(2 * x * z <= x * x + z * z) by (nonlinear_arith);
            assert(z * z <= (e + 5) * (p * z)) by (nonlinear_arith)
                requires
                    0 <= z <= p * e,
                    0 <= p * z,
            ;
        }
        assert(b <= 2 * (p * z) * short);
    } else {
        lemma_lost_scales(p, h, c);
        lemma_lost_by_distance(p * h, p * c, z);
        lemma_shortfall_step(p, c, z, e, a, b, short);
    }
}

/// The shortfalls of tranches, each weighted by its debt.
pub open spec fn weighted_shortfall(curve: DynamicFeeCurve, tranches: Seq<int>) -> int
    decreases tranches.len(),
{
    if tranches.len() == 0 {
        0
    } else {
        tranches[0] * shortfall(curve, tranches[0]) + weighted_shortfall(
            after_tranche(curve, tranches[0]),
            tranches.drop_first(),
        )
    }
}

/// Tranches of nothing weigh nothing.
pub(crate) proof fn lemma_nothing_weighs_nothing(curve: DynamicFeeCurve, tranches: Seq<int>)
    requires
        splits(curve, tranches),
        total(tranches) == 0,
    ensures
        weighted_shortfall(curve, tranches) == 0,
    decreases tranches.len(),
{
    if tranches.len() > 0 {
        lemma_rest_splits(curve, tranches);
        lemma_nothing_weighs_nothing(after_tranche(curve, tranches[0]), tranches.drop_first());
        assert(0 * shortfall(curve, tranches[0]) == 0);
    }
}

/// The headroom that a tranche leaves.
pub(crate) proof fn lemma_headroom_after(curve: DynamicFeeCurve, first: int)
    requires
        curve.well_formed(),
        curve.divisor.inner > 0,
        0 <= first <= curve.debt,
        0 < curve.debt,
    ensures
        headroom(after_tranche(curve, first)) == surplus(headroom(curve), curve.climb(first)),
        surplus(pace(curve) * headroom(curve), distance(first)) <= pace(curve) * headroom(
            after_tranche(curve, first),
        ) <= surplus(pace(curve) * headroom(curve), distance(first)) + pace(curve) * rise_loss(
            curve,
            first,
        ),
{
    let p = pace(curve);
    let h = headroom(curve);
    let c = curve.climb(first);
    let z = distance(first);
    let e = rise_loss(curve, first);
    let left = headroom(after_tranche(curve, first));
    law_raised_fee_lies_between_arrival_and_ceiling(curve, first);
    lemma_raised_is_the_climb(curve, first);
    lemma_climb_is_near(curve, first);
    lemma_rise_loss(curve, first);
    assert(left == surplus(h, c));
    assert(0 < p) by (nonlinear_arith)
        requires
            p == curve.debt * curve.divisor.inner,
            0 < curve.debt,
            0 < curve.divisor.inner,
    ;
    assert(p * (c + e) == p * c + p * e && 0 <= p * e) by (nonlinear_arith)
        requires
            0 < p,
            0 <= e,
    ;
    if h >= c {
        assert(p * (h - c) == p * h - p * c && 0 <= p * (h - c)) by (nonlinear_arith)
            requires
                0 < p,
                h >= c,
        ;
    } else {
        assert(p * h <= p * c) by (nonlinear_arith)
            requires
                0 < p,
                h <= c,
        ;
        assert(p * 0 == 0);
    }
}

/// Where each rise loses at most `most` units, tranches lose at most that for each of them, twice,
/// but once for one.
pub(crate) proof fn lemma_rises_lost(curve: DynamicFeeCurve, tranches: Seq<int>, most: int)
    requires
        splits(curve, tranches),
        rise_slack(curve) <= most || curve.divisor.inner * 2 >= DIV && 3 <= most,
    ensures
        0 <= rises_lost(curve, tranches),
        tranches.len() > 0 ==> rises_lost(curve, tranches) <= most * (2 * tranches.len() - 1)
            * total(tranches),
    decreases tranches.len(),
{
    let n = tranches.len() as int;
    assert(0 <= most) by (nonlinear_arith)
        requires
            DIV as int / curve.divisor.inner as int + 2 <= most || 3 <= most,
            curve.divisor.inner > 0,
            DIV > 0,
    ;
    if n > 0 {
        lemma_rest_splits(curve, tranches);
        let first = tranches[0];
        let t = total(tranches);
        let rest = tranches.drop_first();
        let more = total(rest);
        if curve.debt > 0 {
            let e = rise_loss(curve, first);
            let smaller = after_tranche(curve, first);
            lemma_rise_loss(curve, first);
            lemma_rises_lost(smaller, rest, most);
            let k = missed_later(curve, first, more);
            assert(0 <= e * first + k * more <= most * (first + 2 * more)) by (nonlinear_arith)
                requires
                    0 <= e <= most,
                    0 <= k <= 2 * e,
                    0 <= first,
                    0 <= more,
            ;
            if n == 1 {
                assert(rest =~= Seq::<int>::empty());
                assert(most * (first + 2 * 0) == most * (2 * 1 - 1) * first) by (nonlinear_arith);
            } else {
                assert(most * (first + 2 * more) + most * (2 * (n - 1) - 1) * more <= most * (2 * n
                    - 1) * (first + more)) by (nonlinear_arith)
                    requires
                        0 <= most,
                        0 <= first,
                        0 <= more,
                        2 <= n,
                {
                    assert(most * (2 * n - 1) * (first + more) - most * (first + 2 * more) - most * (
                    2 * (n - 1) - 1) * more == most * ((2 * n - 2) * first));
                    assert(0 <= (2 * n - 2) * first);
                    assert(0 <= most * ((2 * n - 2) * first));
                }
            }
        } else {
            assert(0 <= most * (2 * n - 1) * t) by (nonlinear_arith)
                requires
                    0 <= most,
                    1 <= n,
                    0 <= t,
            ;
        }
    }
}

/// The shortfalls of tranches are at most what one exact climb over their debt loses, but for the
/// precision of the rises and the rounding of the means.
#[verifier::spinoff_prover]
pub(crate) proof fn lemma_tranches_fall_no_shorter(curve: DynamicFeeCurve, tranches: Seq<int>)
    requires
        splits(curve, tranches),
        0 < curve.debt,
    ensures
        ({
            let p = pace(curve);
            let z = distance(total(tranches));
            2 * p * distance(weighted_shortfall(curve, tranches)) <= lost(p * headroom(curve), z) + p * (
            distance(rises_lost(curve, tranches)) + 5 * z)
        }),
    decreases tranches.len(),
{
    let p = pace(curve);
    let h = headroom(curve);
    assert(0 < p) by (nonlinear_arith)
        requires
            p == curve.debt * curve.divisor.inner,
            0 < curve.debt,
            0 < curve.divisor.inner,
    ;
    assert(0 <= p * h) by (nonlinear_arith)
        requires
            0 < p,
            0 <= h,
    ;
    if tranches.len() == 0 {
        assert(distance(0) == 0);
        lemma_lost_is_bounded(p * h, 0);
        assert(2 * p * 0 == 0 && p * (0 + 5 * 0) == 0) by (nonlinear_arith);
    } else {
        let first = tranches[0];
        let rest = tranches.drop_first();
        let smaller = after_tranche(curve, first);
        lemma_rest_splits(curve, tranches);
        let za = distance(first);
        let zb = distance(total(rest));
        let ya = 2 * (first * (DIV * DIV)) * shortfall(curve, first);
        let yb = 2 * distance(weighted_shortfall(smaller, rest));
        let e = rise_loss(curve, first);
        let later = rises_lost(smaller, rest);
        let slack = distance(later) + 5 * zb;
        lemma_rise_loss(curve, first);
        let x = surplus(p * h, za);
        let h2 = headroom(smaller);
        assert(0 <= za && 0 <= zb) by (nonlinear_arith)
            requires
                za == first * (DIV * DIV),
                zb == total(rest) * (DIV * DIV),
                0 <= first,
                0 <= total(rest),
        ;
        lemma_shortfall_is_near(curve, first);
        assert(2 * (p * za) * shortfall(curve, first) == p * ya) by (nonlinear_arith)
            requires
                ya == 2 * (first * (DIV * DIV)) * shortfall(curve, first),
                za == first * (DIV * DIV),
        ;
        lemma_headroom_after(curve, first);
        lemma_lost_adds_up(p * h, za, zb);
        let k = missed_later(curve, first, total(rest));
        assert(p * yb <= lost(x, zb) + p * (slack + k * zb)) by {
            if smaller.debt > 0 {
                lemma_tranches_fall_no_shorter(smaller, rest);
                let q = pace(smaller);
                assert(0 < q <= p) by (nonlinear_arith)
                    requires
                        q == smaller.debt * smaller.divisor.inner,
                        p == curve.debt * curve.divisor.inner,
                        0 < smaller.debt <= curve.debt,
                        smaller.divisor == curve.divisor,
                        0 < curve.divisor.inner,
                ;
                assert(q * yb == 2 * q * distance(weighted_shortfall(smaller, rest)))
                    by (nonlinear_arith)
                    requires
                        yb == 2 * distance(weighted_shortfall(smaller, rest)),
                ;
                let at_q = lost(q * h2, zb);
                let at_x = lost(x, zb);
                assert(p * at_q <= q * (at_x + p * (k * zb))) by {
                    if e > 0 && outweighs(curve, first, total(rest)) {
                        lemma_faster_pace_pays_off(p, q, e, h2, x, zb);
                    } else {
                        let at_p = lost(p * h2, zb);
                        lemma_lost_by_pace(p, q, h2, zb);
                        lemma_lost_by_start(x, x + p * e, zb);
                        lemma_lost_by_start(p * h2, x + p * e, zb);
                        assert(q * at_p <= q * (at_x + p * (k * zb))) by (nonlinear_arith)
                            requires
                                at_p <= at_x + 2 * (p * e) * zb,
                                k == 2 * e,
                                0 < q,
                        ;
                    }
                }
                lemma_rest_step(p, q, yb, slack, k * zb, at_q, at_x);
            } else {
                lemma_nothing_weighs_nothing(smaller, rest);
                assert(zb == 0 && yb == 0) by (nonlinear_arith)
                    requires
                        zb == total(rest) * (DIV * DIV),
                        total(rest) == 0,
                        yb == 2 * (0 * (DIV * DIV)),
                ;
                lemma_lost_is_bounded(x, 0);
                assert(p * 0 == 0 && p * (0 * (DIV * DIV) + 5 * 0 + k * 0) == 0) by (nonlinear_arith);
            }
        }
        assert(2 * p * distance(weighted_shortfall(curve, tranches)) == p * ya + p * yb)
            by (nonlinear_arith)
            requires
                weighted_shortfall(curve, tranches) == first * shortfall(curve, first)
                    + weighted_shortfall(smaller, rest),
                ya == 2 * (first * (DIV * DIV)) * shortfall(curve, first),
                yb == 2 * (weighted_shortfall(smaller, rest) * (DIV * DIV)),
                distance(weighted_shortfall(curve, tranches)) == weighted_shortfall(curve, tranches)
                    * (DIV * DIV),
        ;
        assert(distance(total(tranches)) == za + zb) by (nonlinear_arith)
            requires
                za == first * (DIV * DIV),
                zb == total(rest) * (DIV * DIV),
                total(tranches) == first + total(rest),
                distance(total(tranches)) == total(tranches) * (DIV * DIV),
        ;
        let lose = rises_lost(curve, tranches);
        assert((e + 5) * (p * za) + p * (slack + k * zb) == p * (distance(lose) + 5 * (za + zb)))
            by (nonlinear_arith)
            requires
                lose == e * first + k * total(rest) + later,
                slack == later * (DIV * DIV) + 5 * zb,
                distance(lose) == lose * (DIV * DIV),
                za == first * (DIV * DIV),
                zb == total(rest) * (DIV * DIV),
        {
            assert(lose * (DIV * DIV) == e * za + k * zb + later * (DIV * DIV)) by (nonlinear_arith)
                requires
                    lose == e * first + k * total(rest) + later,
                    za == first * (DIV * DIV),
                    zb == total(rest) * (DIV * DIV),
            ;
        }
    }
}

/// The rate at the cap.
pub open spec fn top_rate(curve: DynamicFeeCurve) -> int {
    charged(curve.cap(), curve.base_fee, curve.fee_ceiling)
}

/// A redemption's rate lies below the rate at the cap by its shortfall.
pub(crate) proof fn lemma_rate_by_shortfall(curve: DynamicFeeCurve, redeemed: int)
    requires
        curve.well_formed(),
        0 <= redeemed,
    ensures
        curve.rate(redeemed) == top_rate(curve) - shortfall(curve, redeemed),
        0 <= curve.rate(redeemed) <= DIV,
        0 <= shortfall(curve, redeemed),
{
    lemma_mean_fee_by_rise(curve, redeemed);
}

/// The fees of tranches are their debts at their rates, each rounded up.
pub(crate) proof fn lemma_tranches_pay_their_rates(curve: DynamicFeeCurve, tranches: Seq<int>, limit: int)
    requires
        splits(curve, tranches),
        total(tranches) <= limit,
    ensures
        ({
            let exact = top_rate(curve) * total(tranches) - weighted_shortfall(curve, tranches);
            exact <= DIV * tranches_pay(curve, tranches, limit) <= exact + DIV * tranches.len()
        }),
    decreases tranches.len(),
{
    let top = top_rate(curve);
    if tranches.len() == 0 {
        assert(top * 0 == 0 && DIV * 0 == 0);
    } else {
        let first = tranches[0];
        let rest = tranches.drop_first();
        let smaller = after_tranche(curve, first);
        lemma_rest_splits(curve, tranches);
        lemma_tranches_pay_their_rates(smaller, rest, limit);
        lemma_rate_by_shortfall(curve, first);
        let rate = curve.rate(first);
        let short = shortfall(curve, first);
        let fee = rounded(first * rate, DIV as int, Rounding::Up);
        lemma_rounded_up(first * rate, DIV as int);
        assert(first * rate <= first * DIV) by (nonlinear_arith)
            requires
                0 <= first,
                rate <= DIV,
        ;
        assert(fee <= first) by (nonlinear_arith)
            requires
                DIV * fee < first * rate + DIV,
                first * rate <= first * DIV,
                DIV > 0,
        ;
        assert(first * rate == top * first - first * short) by (nonlinear_arith)
            requires
                rate == top - short,
        ;
        assert(top * (first + total(rest)) == top * first + top * total(rest)) by (nonlinear_arith);
        let more = tranches_pay(smaller, rest, limit);
        assert(DIV * (fee + more) == DIV * fee + DIV * more) by (nonlinear_arith);
        assert(DIV * tranches.len() == DIV * rest.len() + DIV) by (nonlinear_arith)
            requires
                tranches.len() == rest.len() + 1,
        ;
    }
}

/// The shortfalls of tranches, against that of the whole.
pub(crate) proof fn lemma_tranches_against_the_whole(curve: DynamicFeeCurve, tranches: Seq<int>)
    requires
        splits(curve, tranches),
        tranches.len() > 0,
    ensures
        2 * weighted_shortfall(curve, tranches) <= 2 * (total(tranches) * shortfall(
            curve,
            total(tranches),
        )) + rises_lost(curve, tranches) + 6 * total(tranches),
{
    let t = total(tranches);
    let w = weighted_shortfall(curve, tranches);
    let short = shortfall(curve, t);
    let r = rises_lost(curve, tranches);
    lemma_rest_splits(curve, tranches);
    if curve.debt > 0 {
        let p = pace(curve);
        let z = distance(t);
        let scale = (DIV * DIV) as int;
        lemma_tranches_fall_no_shorter(curve, tranches);
        lemma_shortfall_is_near(curve, t);
        assert(0 < p) by (nonlinear_arith)
            requires
                p == curve.debt * curve.divisor.inner,
                0 < curve.debt,
                0 < curve.divisor.inner,
        ;
        let pz = p * z;
        assert(p * (distance(r) + 5 * z) == p * distance(r) + 5 * pz) by (nonlinear_arith)
            requires
                pz == p * z,
        ;
        let step = p * scale;
        assert(2 * p * distance(w) == step * (2 * w)) by (nonlinear_arith)
            requires
                distance(w) == w * scale,
                step == p * scale,
        ;
        assert(pz == step * t) by (nonlinear_arith)
            requires
                pz == p * z,
                z == t * scale,
                step == p * scale,
        ;
        assert(2 * (step * t) * short == step * (2 * (t * short))) by (nonlinear_arith);
        assert(p * distance(r) == step * r) by (nonlinear_arith)
            requires
                distance(r) == r * scale,
                step == p * scale,
        ;
        assert(step * (2 * (t * short) + r + 6 * t) == step * (2 * (t * short)) + step * r + 6 * (
        step * t)) by (nonlinear_arith);
        assert(0 < step) by (nonlinear_arith)
            requires
                0 < p,
                step == p * scale,
                scale == 1_000_000_000_000_000_000 * 1_000_000_000_000_000_000,
        ;
        assert(2 * w <= 2 * (t * short) + r + 6 * t) by (nonlinear_arith)
            requires
                step * (2 * w) <= step * (2 * (t * short) + r + 6 * t),
                0 < step,
        ;
    } else {
        lemma_nothing_weighs_nothing(curve, tranches);
        assert(2 * (0 * short) + 6 * 0 == 0) by (nonlinear_arith);
    }
}

/// No schedule of tranches undercuts one redemption of the same debt, but for what rounding takes
/// off the tranches' rises, the precision of a rate, and a unit of rounding.
pub proof fn law_tranches_undercut_by_no_more_than_rounding(
    curve: DynamicFeeCurve,
    tranches: Seq<int>,
    limit: int,
)
    requires
        splits(curve, tranches),
        tranches.len() > 0,
        total(tranches) <= limit,
    ensures
        rounded_fee(total(tranches), curve.rate(total(tranches)), limit) <= tranches_pay(
            curve,
            tranches,
            limit,
        ) + (rises_lost(curve, tranches) + 6 * total(tranches)) / (2 * DIV as int) + 1,
{
    let t = total(tranches);
    let top = top_rate(curve);
    let short = shortfall(curve, t);
    let rate = curve.rate(t);
    let slack = rises_lost(curve, tranches) + 6 * t;
    let pay = tranches_pay(curve, tranches, limit);
    let fee = rounded(t * rate, DIV as int, Rounding::Up);
    lemma_rest_splits(curve, tranches);
    lemma_tranches_against_the_whole(curve, tranches);
    lemma_tranches_pay_their_rates(curve, tranches, limit);
    lemma_rate_by_shortfall(curve, t);
    lemma_rounded_up(t * rate, DIV as int);
    assert(t * rate == top * t - t * short) by (nonlinear_arith)
        requires
            rate == top - short,
    ;
    let unit = 2 * DIV as int;
    let part = slack / unit;
    lemma_quotient(slack, unit);
    assert(fee <= pay + part + 1) by (nonlinear_arith)
        requires
            unit * fee < unit * pay + slack + unit,
            slack < unit * (part + 1),
            0 < unit,
    ;
}

/// No schedule of tranches undercuts one redemption of the same debt, but for the precision of the
/// rate and a unit of rounding.
pub proof fn law_tranches_never_undercut_one_redemption(
    curve: DynamicFeeCurve,
    tranches: Seq<int>,
    limit: int,
)
    requires
        splits(curve, tranches),
        tranches.len() > 0,
        total(tranches) <= limit,
    ensures
        rounded_fee(total(tranches), curve.rate(total(tranches)), limit) <= tranches_pay(
            curve,
            tranches,
            limit,
        ) + (rise_slack(curve) * tranches.len() + 3) * total(tranches) / DIV as int + 1,
{
    let t = total(tranches);
    let e = rise_slack(curve);
    let n = tranches.len() as int;
    lemma_rest_splits(curve, tranches);
    lemma_rises_lost(curve, tranches, e);
    law_tranches_undercut_by_no_more_than_rounding(curve, tranches, limit);
    assert(e * (2 * n - 1) * t <= 2 * ((e * n) * t)) by (nonlinear_arith)
        requires
            0 <= t,
            e == DIV as int / curve.divisor.inner as int + 2,
            curve.divisor.inner > 0,
            DIV > 0,
    ;
    assert((e * n + 3) * t == (e * n) * t + 3 * t) by (nonlinear_arith);
    lemma_slack_within(rises_lost(curve, tranches) + 6 * t, (e * n + 3) * t);
}

/// A slack in half units is within one in whole units that covers it.
pub(crate) proof fn lemma_slack_within(halves: int, wholes: int)
    requires
        halves <= 2 * wholes,
    ensures
        halves / (2 * DIV as int) <= wholes / DIV as int,
{
    let unit = DIV as int;
    let low = halves / (2 * unit);
    let high = wholes / unit;
    lemma_quotient(halves, 2 * unit);
    lemma_quotient(wholes, unit);
    assert(low <= high) by (nonlinear_arith)
        requires
            (2 * unit) * low <= halves <= 2 * wholes,
            wholes < unit * (high + 1),
            0 < unit,
    ;
}

} // verus!
