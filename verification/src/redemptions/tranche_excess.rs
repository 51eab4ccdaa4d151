//! How much more tranches can cost than one redemption.

use crate::arithmetic::{rounded, surplus, Rounding, DIV};
use crate::redemptions::climb_area::{
    lemma_lost_adds_up, lemma_lost_by_faster_pace, lemma_lost_by_pace, lemma_lost_by_start,
    lemma_lost_is_bounded, lost,
};
use crate::redemptions::fees::{rounded_fee, DynamicFeeCurve};
use crate::redemptions::tranche_laws::{
    after_tranche, distance, headroom, lemma_climb_is_near, lemma_headroom_after, lemma_quotient,
    lemma_rate_by_shortfall, lemma_rest_splits, lemma_rise_loss, lemma_rounded_up,
    lemma_shortfall_is_near, lemma_tranches_pay_their_rates, pace, rise_excess, rise_loss, shortfall,
    splits, top_rate, total, tranches_pay, weighted_shortfall,
};
use vstd::prelude::*;

verus! {

/// The shortfalls of tranches are at least what one exact climb against a debt of at most what they
/// leave loses, but for the rounding of the means.
#[verifier::spinoff_prover]
proof fn lemma_tranches_fall_short(curve: DynamicFeeCurve, tranches: Seq<int>, least_debt: int)
    requires
        splits(curve, tranches),
        0 < least_debt <= curve.debt - total(tranches),
    ensures
        ({
            let q = least_debt * curve.divisor.inner;
            let z = distance(total(tranches));
            lost(q * headroom(curve), z) - q * z <= 2 * q * distance(
                weighted_shortfall(curve, tranches),
            )
        }),
    decreases tranches.len(),
{
    let v = curve.divisor.inner as int;
    let q = least_debt * v;
    let h = headroom(curve);
    assert(0 < q) by (nonlinear_arith)
        requires
            q == least_debt * v,
            0 < least_debt,
            0 < v,
    ;
    assert(0 <= q * h) by (nonlinear_arith)
        requires
            0 < q,
            0 <= h,
    ;
    if tranches.len() == 0 {
        assert(distance(0) == 0);
        lemma_lost_is_bounded(q * h, 0);
        assert(2 * q * 0 == 0 && q * 0 == 0) by (nonlinear_arith);
    } else {
        let first = tranches[0];
        let rest = tranches.drop_first();
        let smaller = after_tranche(curve, first);
        lemma_rest_splits(curve, tranches);
        lemma_tranches_fall_short(smaller, rest, least_debt);
        let p = pace(curve);
        let za = distance(first);
        let zb = distance(total(rest));
        let short = shortfall(curve, first);
        let ya = 2 * za * short;
        let yb = 2 * distance(weighted_shortfall(smaller, rest));
        let h2 = headroom(smaller);
        let c = curve.climb(first);
        assert(0 <= za && 0 <= zb) by (nonlinear_arith)
            requires
                za == first * (DIV * DIV),
                zb == total(rest) * (DIV * DIV),
                0 <= first,
                0 <= total(rest),
        ;
        assert(0 < q <= p) by (nonlinear_arith)
            requires
                q == least_debt * v,
                p == curve.debt * v,
                0 < least_debt <= curve.debt,
                0 < v,
        ;
        lemma_shortfall_is_near(curve, first);
        lemma_lost_by_pace(p, q, h, za);
        let at_p = lost(p * h, za);
        let at_q = lost(q * h, za);
        assert(at_q - q * za <= q * ya) by {
            assert(p * (at_q - q * za) <= p * (q * ya)) by (nonlinear_arith)
                requires
                    p * at_q <= q * at_p,
                    at_p - p * za <= 2 * (p * za) * short,
                    ya == 2 * za * short,
                    0 < q,
            ;
            assert(at_q - q * za <= q * ya) by (nonlinear_arith)
                requires
                    p * (at_q - q * za) <= p * (q * ya),
                    0 < p,
            ;
        }
        lemma_headroom_after(curve, first);
        lemma_climb_is_near(curve, first);
        assert(surplus(q * h, za) <= q * h2) by {
            assert(q * c <= za) by (nonlinear_arith)
                requires
                    p * c <= za,
                    0 < q <= p,
                    0 <= c,
            ;
            if h >= c {
                assert(q * (h - c) == q * h - q * c && 0 <= q * (h - c)) by (nonlinear_arith)
                    requires
                        0 < q,
                        h >= c,
                ;
            } else {
                assert(q * h <= q * c && q * 0 == 0) by (nonlinear_arith)
                    requires
                        0 < q,
                        h <= c,
                ;
            }
        }
        lemma_lost_by_start(surplus(q * h, za), q * h2, zb);
        lemma_lost_adds_up(q * h, za, zb);
        assert(q * yb == 2 * q * distance(weighted_shortfall(smaller, rest))) by (nonlinear_arith)
            requires
                yb == 2 * distance(weighted_shortfall(smaller, rest)),
        ;
        assert(2 * q * distance(weighted_shortfall(curve, tranches)) == q * ya + q * yb)
            by (nonlinear_arith)
            requires
                weighted_shortfall(curve, tranches) == first * short + weighted_shortfall(
                    smaller,
                    rest,
                ),
                ya == 2 * za * short,
                za == first * (DIV * DIV),
                yb == 2 * (weighted_shortfall(smaller, rest) * (DIV * DIV)),
                distance(weighted_shortfall(curve, tranches)) == weighted_shortfall(curve, tranches)
                    * (DIV * DIV),
        ;
        assert(distance(total(tranches)) == za + zb) by (nonlinear_arith)
            requires
                za == first * (DIV * DIV),
                zb == total(rest) * (DIV * DIV),
                total(tranches) == first + total(rest),
                distance(total(tranches)) == total(tranches) * (DIV * DIV),
        ;
        assert(q * (za + zb) == q * za + q * zb) by (nonlinear_arith);
    }
}

/// The faster climb of tranches covers what the excess of their rise says.
proof fn lemma_rise_excess_covers(curve: DynamicFeeCurve, redeemed: int)
    requires
        curve.divisor.inner > 0,
        0 <= redeemed < curve.debt,
    ensures
        ({
            let p = pace(curve);
            let q = (curve.debt - redeemed) * curve.divisor.inner;
            (p - q) * distance(redeemed) <= rise_excess(curve, redeemed) * (p * q)
        }),
{
    let d = curve.debt as int;
    let v = curve.divisor.inner as int;
    let left = d - redeemed;
    let t = redeemed * DIV;
    let largest = rounded(t, left, Rounding::Up);
    let smallest = t / d;
    let x = rise_excess(curve, redeemed);
    lemma_rounded_up(t, left);
    lemma_quotient(t, d);
    lemma_rounded_up((largest - smallest) * DIV, v);
    assert((d - left) * t <= (d * left) * (largest - smallest)) by (nonlinear_arith)
        requires
            t <= left * largest,
            d * smallest <= t,
            0 < left <= d,
    ;
    assert((d - left) * (t * DIV) <= (d * left) * (v * x)) by (nonlinear_arith)
        requires
            (d - left) * t <= (d * left) * (largest - smallest),
            (largest - smallest) * DIV <= v * x,
            0 < left <= d,
            DIV > 0,
    ;
    let z = distance(redeemed);
    assert(z == t * DIV) by (nonlinear_arith)
        requires
            z == redeemed * (DIV * DIV),
            t == redeemed * DIV,
    ;
    assert((d * v - left * v) * z <= x * ((d * v) * (left * v))) by (nonlinear_arith)
        requires
            (d - left) * z <= (d * left) * (v * x),
            0 < v,
    ;
}

/// Tranches of less than the debt pay no more than one redemption of the same debt and half of the
/// excess of their rise, but for the precision of the rate and a unit of rounding for each.
pub proof fn law_tranches_pay_a_bounded_excess(
    curve: DynamicFeeCurve,
    tranches: Seq<int>,
    limit: int,
)
    requires
        splits(curve, tranches),
        tranches.len() > 0,
        total(tranches) < curve.debt,
        total(tranches) <= limit,
    ensures
        tranches_pay(curve, tranches, limit) <= rounded_fee(
            total(tranches),
            curve.rate(total(tranches)),
            limit,
        ) + tranches.len() + rounded(
            (rise_excess(curve, total(tranches)) + rise_loss(curve, total(tranches)) + 6) * total(tranches),
            2 * DIV as int,
            Rounding::Up,
        ),
{
    let t = total(tranches);
    let e = rise_loss(curve, t);
    let x = rise_excess(curve, t);
    let w = weighted_shortfall(curve, tranches);
    let short = shortfall(curve, t);
    let n = tranches.len() as int;
    let pay = tranches_pay(curve, tranches, limit);
    let top = top_rate(curve);
    let rate = curve.rate(t);
    lemma_rest_splits(curve, tranches);
    lemma_excess_of_shortfalls(curve, tranches);
    lemma_tranches_pay_their_rates(curve, tranches, limit);
    lemma_rate_by_shortfall(curve, t);
    let fee = rounded(t * rate, DIV as int, Rounding::Up);
    lemma_rounded_up(t * rate, DIV as int);
    assert(t * rate == top * t - t * short && t * rate <= t * DIV) by (nonlinear_arith)
        requires
            rate == top - short,
            0 <= t,
            rate <= DIV,
    ;
    assert(fee <= t) by (nonlinear_arith)
        requires
            DIV * fee < t * rate + DIV,
            t * rate <= t * DIV,
            DIV > 0,
    ;
    let excess = (x + e + 6) * t;
    lemma_rounded_up(excess, 2 * DIV as int);
}

/// Against a divisor of at least one half, tranches of less than the debt pay no more than one
/// redemption of the same debt and half of the excess of their rise, but for eight units of the rate
/// and a unit of rounding for each tranche and for the redemption.
pub proof fn law_tranches_pay_a_bounded_excess_within_the_rate_slack(
    curve: DynamicFeeCurve,
    tranches: Seq<int>,
    limit: int,
)
    requires
        splits(curve, tranches),
        tranches.len() > 0,
        total(tranches) < curve.debt,
        total(tranches) <= limit,
        curve.divisor.inner * 2 >= DIV,
    ensures
        tranches_pay(curve, tranches, limit) <= rounded_fee(
            total(tranches),
            curve.rate(total(tranches)),
            limit,
        ) + tranches.len() + rounded(
            rise_excess(curve, total(tranches)) * total(tranches),
            2 * DIV as int,
            Rounding::Up,
        ) + 8 * total(tranches) / DIV as int + 1,
{
    let t = total(tranches);
    let x = rise_excess(curve, t);
    let e = rise_loss(curve, t);
    let unit = 2 * DIV as int;
    lemma_rest_splits(curve, tranches);
    lemma_rise_loss(curve, t);
    law_tranches_pay_a_bounded_excess(curve, tranches, limit);
    let whole = (x + e + 6) * t;
    let up = rounded(whole, unit, Rounding::Up);
    let half = rounded(x * t, unit, Rounding::Up);
    let slack = 8 * t / DIV as int;
    lemma_rounded_up(whole, unit);
    lemma_rounded_up(x * t, unit);
    lemma_quotient(8 * t, DIV as int);
    assert(whole <= x * t + 16 * t) by (nonlinear_arith)
        requires
            whole == (x + e + 6) * t,
            e <= 3,
            0 <= t,
    ;
    assert(2 * (8 * t) < unit * (slack + 1)) by (nonlinear_arith)
        requires
            8 * t < DIV * (slack + 1),
            unit == 2 * DIV,
    ;
    assert(up <= half + slack + 1) by (nonlinear_arith)
        requires
            unit * up < whole + unit,
            whole <= x * t + 16 * t,
            x * t <= unit * half,
            2 * (8 * t) < unit * (slack + 1),
            0 < unit,
    ;
}

/// The shortfalls of tranches, against that of the whole less half of the excess of their rise.
#[verifier::spinoff_prover]
proof fn lemma_excess_of_shortfalls(curve: DynamicFeeCurve, tranches: Seq<int>)
    requires
        splits(curve, tranches),
        tranches.len() > 0,
        total(tranches) < curve.debt,
    ensures
        2 * (total(tranches) * shortfall(curve, total(tranches))) <= 2 * weighted_shortfall(
            curve,
            tranches,
        ) + (rise_excess(curve, total(tranches)) + rise_loss(curve, total(tranches)) + 6) * total(tranches),
{
    let t = total(tranches);
    let v = curve.divisor.inner as int;
    let p = pace(curve);
    let q = (curve.debt - t) * v;
    let h = headroom(curve);
    let z = distance(t);
    let e = rise_loss(curve, t);
    let x = rise_excess(curve, t);
    let w = weighted_shortfall(curve, tranches);
    let short = shortfall(curve, t);
    lemma_rest_splits(curve, tranches);
    assert(0 < q <= p) by (nonlinear_arith)
        requires
            q == (curve.debt - t) * v,
            p == curve.debt * v,
            0 <= t < curve.debt,
            0 < v,
    ;
    assert(0 <= z) by (nonlinear_arith)
        requires
            z == t * (DIV * DIV),
            0 <= t,
    ;
    lemma_shortfall_is_near(curve, t);
    lemma_tranches_fall_short(curve, tranches, curve.debt - t);
    lemma_lost_by_faster_pace(p, q, h, z);
    lemma_rise_excess_covers(curve, t);
    let a = lost(p * h, z);
    let b = lost(q * h, z);
    let y = 2 * distance(w);
    assert(2 * q * distance(w) == q * y) by (nonlinear_arith)
        requires
            y == 2 * distance(w),
    ;
    let pq = p * q;
    assert(0 < pq) by (nonlinear_arith)
        requires
            pq == p * q,
            0 < q <= p,
    ;
    assert((p - q) * (z * z) <= (x * pq) * z) by (nonlinear_arith)
        requires
            (p - q) * z <= x * pq,
            0 <= z,
    ;
    assert(pq * (2 * z * short) == q * (2 * (p * z) * short)) by (nonlinear_arith)
        requires
            pq == p * q,
    ;
    let k = e + 5;
    assert(q * (2 * (p * z) * short) <= q * (a + k * (p * z))) by (nonlinear_arith)
        requires
            2 * (p * z) * short <= a + k * (p * z),
            0 < q,
    ;
    assert(q * (a + k * (p * z)) == q * a + pq * (k * z)) by (nonlinear_arith)
        requires
            pq == p * q,
    ;
    assert(p * b <= pq * y + pq * z) by (nonlinear_arith)
        requires
            b - q * z <= q * y,
            pq == p * q,
            0 < p,
    ;
    assert((x * pq) * z == pq * (x * z)) by (nonlinear_arith);
    assert(pq * (y + (x + e + 6) * z) == pq * y + pq * z + pq * (x * z) + pq * (k * z))
        by (nonlinear_arith)
        requires
            k == e + 5,
    ;
    assert(2 * z * short <= y + (x + e + 6) * z) by (nonlinear_arith)
        requires
            pq * (2 * z * short) <= pq * (y + (x + e + 6) * z),
            0 < pq,
    ;
    let scale = (DIV * DIV) as int;
    assert(scale * (2 * (t * short)) <= scale * (2 * w + (x + e + 6) * t)) by (nonlinear_arith)
        requires
            2 * z * short <= y + (x + e + 6) * z,
            z == t * scale,
            y == 2 * (w * scale),
    ;
    assert(2 * (t * short) <= 2 * w + (x + e + 6) * t) by (nonlinear_arith)
        requires
            scale * (2 * (t * short)) <= scale * (2 * w + (x + e + 6) * t),
            scale == 1_000_000_000_000_000_000 * 1_000_000_000_000_000_000,
    ;
}

} // verus!
