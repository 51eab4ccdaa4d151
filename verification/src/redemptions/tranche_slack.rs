//! When tranches stay within the rate's precision of one redemption.

use crate::arithmetic::DIV;
use crate::redemptions::fees::{rounded_fee, DynamicFeeCurve};
use crate::redemptions::tranche_laws::{
    after_tranche, distance, law_tranches_undercut_by_no_more_than_rounding, lemma_quotient,
    lemma_rest_splits, lemma_rise_loss, lemma_rises_lost, lemma_slack_within,
    lemma_total_is_natural, missed_later, outweighs, pace, rise_loss, rises_lost, splits, total,
    tranches_pay,
};
use vstd::prelude::*;

verus! {

/// No schedule of tranches undercuts one redemption of the same debt, but for eight units of the
/// rate and one of the fee, where the rates lose no more than five units to the rounding of the
/// tranches' rises. Those of two tranches lose no more against a divisor of at least one half.
pub proof fn law_tranches_never_undercut_within_the_rate_slack(
    curve: DynamicFeeCurve,
    tranches: Seq<int>,
    limit: int,
)
    requires
        splits(curve, tranches),
        tranches.len() > 0,
        total(tranches) <= limit,
        rises_lost(curve, tranches) <= 10 * total(tranches) || curve.divisor.inner * 2 >= DIV
            && tranches.len() <= 2,
    ensures
        rounded_fee(total(tranches), curve.rate(total(tranches)), limit) <= tranches_pay(
            curve,
            tranches,
            limit,
        ) + 8 * total(tranches) / DIV as int + 1,
{
    let t = total(tranches);
    lemma_rest_splits(curve, tranches);
    if curve.divisor.inner * 2 >= DIV && tranches.len() <= 2 {
        lemma_rises_lost(curve, tranches, 3);
        assert(3 * (2 * tranches.len() - 1) * t <= 9 * t) by (nonlinear_arith)
            requires
                tranches.len() <= 2,
                0 <= t,
        ;
    }
    law_tranches_undercut_by_no_more_than_rounding(curve, tranches, limit);
    lemma_slack_within(rises_lost(curve, tranches) + 6 * t, 8 * t);
}

/// Eight tranches of a small redemption undercut it by no more than one unit of the fee, against a
/// divisor of at least one half: what their rates lose comes to less than a unit.
pub proof fn law_tranches_never_undercut_a_small_redemption(
    curve: DynamicFeeCurve,
    tranches: Seq<int>,
    limit: int,
)
    requires
        splits(curve, tranches),
        0 < tranches.len() <= 8,
        total(tranches) <= limit,
        curve.divisor.inner * 2 >= DIV,
        51 * total(tranches) < 2 * DIV,
    ensures
        rounded_fee(total(tranches), curve.rate(total(tranches)), limit) <= tranches_pay(
            curve,
            tranches,
            limit,
        ) + 1,
{
    let t = total(tranches);
    lemma_rest_splits(curve, tranches);
    lemma_rises_lost(curve, tranches, 3);
    assert(3 * (2 * tranches.len() - 1) * t <= 45 * t) by (nonlinear_arith)
        requires
            tranches.len() <= 8,
            0 <= t,
    ;
    law_tranches_undercut_by_no_more_than_rounding(curve, tranches, limit);
    let slack = rises_lost(curve, tranches) + 6 * t;
    let unit = 2 * DIV as int;
    let part = slack / unit;
    lemma_quotient(slack, unit);
    assert(part <= 0) by (nonlinear_arith)
        requires
            unit * part <= slack,
            slack < unit,
            0 < unit,
    ;
}

/// Whether neighbouring tranches are so large that the debt that the first one cancels lets the
/// second one climb faster by at least nine units of the rate.
pub open spec fn weighty(curve: DynamicFeeCurve, tranches: Seq<int>) -> bool {
    forall|i: int|
        0 <= i < tranches.len() - 1 ==> 9 * (curve.debt * curve.debt) * curve.divisor.inner
            <= #[trigger] tranches[i] * tranches[i + 1] * (DIV * DIV)
}

/// A weighty tranche outweighs what rounding takes off its rise.
proof fn lemma_weighty_tranche_outweighs(curve: DynamicFeeCurve, tranche: int, later: int)
    requires
        DIV <= 2 * curve.divisor.inner,
        0 < curve.debt,
        0 <= tranche <= curve.debt,
        0 <= later,
        9 * (curve.debt * curve.debt) * curve.divisor.inner <= tranche * later * (DIV * DIV),
    ensures
        outweighs(curve, tranche, later),
{
    let d = curve.debt as int;
    let v = curve.divisor.inner as int;
    let loss = rise_loss(curve, tranche);
    let p = pace(curve);
    let left = (d - tranche) * v;
    let z = distance(later);
    lemma_rise_loss(curve, tranche);
    assert(loss * loss <= 9) by (nonlinear_arith)
        requires
            0 <= loss <= 3,
    ;
    assert(0 <= p * left <= (d * d) * (v * v)) by (nonlinear_arith)
        requires
            p == d * v,
            left == (d - tranche) * v,
            0 <= tranche <= d,
            0 < v,
    ;
    assert((loss * loss) * (p * left) <= 9 * ((d * d) * (v * v))) by (nonlinear_arith)
        requires
            0 <= loss * loss <= 9,
            0 <= p * left <= (d * d) * (v * v),
    ;
    assert((9 * (d * d) * v) * v <= (tranche * later * (DIV * DIV)) * v) by (nonlinear_arith)
        requires
            9 * (d * d) * v <= tranche * later * (DIV * DIV),
            0 < v,
    ;
    assert((9 * (d * d) * v) * v == 9 * ((d * d) * (v * v))) by (nonlinear_arith);
    assert(p - left == tranche * v) by (nonlinear_arith)
        requires
            p == d * v,
            left == (d - tranche) * v,
    ;
    assert((tranche * later * (DIV * DIV)) * v == (tranche * v) * z) by (nonlinear_arith)
        requires
            z == later * (DIV * DIV),
    ;
}

/// What the rates of weighty tranches lose to the rounding of their rises: three units for the rise
/// of a tranche itself, and one for each tranche before it, in halves.
proof fn lemma_weighty_tranches_lose_little(curve: DynamicFeeCurve, tranches: Seq<int>)
    requires
        splits(curve, tranches),
        DIV <= 2 * curve.divisor.inner,
        weighty(curve, tranches),
        tranches.len() > 0,
    ensures
        rises_lost(curve, tranches) <= (tranches.len() + 2) * total(tranches),
    decreases tranches.len(),
{
    let n = tranches.len() as int;
    let t = total(tranches);
    let first = tranches[0];
    let rest = tranches.drop_first();
    let later = total(rest);
    let smaller = after_tranche(curve, first);
    lemma_rest_splits(curve, tranches);
    if curve.debt == 0 {
        assert(0 <= (n + 2) * t) by (nonlinear_arith)
            requires
                0 < n,
                0 <= t,
        ;
    } else {
        let loss = rise_loss(curve, first);
        let missed = missed_later(curve, first, later);
        lemma_rise_loss(curve, first);
        assert(loss * first <= 3 * first) by (nonlinear_arith)
            requires
                loss <= 3,
                0 <= first,
        ;
        if n == 1 {
            assert(rest =~= Seq::<int>::empty());
            assert(missed * 0 == 0);
            assert((n + 2) * t == 3 * first) by (nonlinear_arith)
                requires
                    n == 1,
                    t == first,
            ;
            assert(rises_lost(smaller, rest) == 0);
        } else {
            let at: int = 0;
            assert(9 * (curve.debt * curve.debt) * curve.divisor.inner <= tranches[at] * tranches[at
                + 1] * (DIV * DIV));
            assert(rest[0] == tranches[1]);
            assert(tranches[1] <= later) by {
                lemma_rest_splits(smaller, rest);
            }
            assert(first * tranches[1] * (DIV * DIV) <= first * later * (DIV * DIV))
                by (nonlinear_arith)
                requires
                    0 <= first,
                    tranches[1] <= later,
            ;
            lemma_weighty_tranche_outweighs(curve, first, later);
            assert(weighty(smaller, rest)) by {
                assert forall|i: int| 0 <= i < rest.len() - 1 implies 9 * (smaller.debt
                    * smaller.debt) * smaller.divisor.inner <= #[trigger] rest[i] * rest[i + 1] * (
                DIV * DIV) by {
                    let j = i + 1;
                    assert(rest[i] == tranches[j] && rest[i + 1] == tranches[j + 1]);
                    assert(9 * (curve.debt * curve.debt) * curve.divisor.inner <= tranches[j]
                        * tranches[j + 1] * (DIV * DIV));
                    assert(9 * (smaller.debt * smaller.debt) * curve.divisor.inner <= 9 * (curve.debt
                        * curve.debt) * curve.divisor.inner) by (nonlinear_arith)
                        requires
                            0 <= smaller.debt <= curve.debt,
                            0 <= curve.divisor.inner,
                    ;
                }
            }
            lemma_weighty_tranches_lose_little(smaller, rest);
            assert(rises_lost(smaller, rest) <= (n + 1) * later);
            assert(missed <= 1);
            assert(missed * later <= later) by (nonlinear_arith)
                requires
                    missed <= 1,
                    0 <= later,
            ;
            assert(3 * first + later + (n + 1) * later <= (n + 2) * (first + later))
                by (nonlinear_arith)
                requires
                    1 <= n,
                    0 <= first,
                    0 <= later,
            ;
        }
    }
}

/// Eight weighty tranches never undercut one redemption of the same debt, but for eight units of the
/// rate and one of the fee, against a divisor of at least one half: each lets the debt behind it
/// climb faster, by more than rounding takes off its own rise.
pub proof fn law_weighty_tranches_never_undercut(
    curve: DynamicFeeCurve,
    tranches: Seq<int>,
    limit: int,
)
    requires
        splits(curve, tranches),
        0 < tranches.len() <= 8,
        total(tranches) <= limit,
        curve.divisor.inner * 2 >= DIV,
        weighty(curve, tranches),
    ensures
        rounded_fee(total(tranches), curve.rate(total(tranches)), limit) <= tranches_pay(
            curve,
            tranches,
            limit,
        ) + 8 * total(tranches) / DIV as int + 1,
{
    let t = total(tranches);
    lemma_total_is_natural(tranches);
    lemma_weighty_tranches_lose_little(curve, tranches);
    assert((tranches.len() + 2) * t <= 10 * t) by (nonlinear_arith)
        requires
            tranches.len() <= 8,
            0 <= t,
    ;
    law_tranches_never_undercut_within_the_rate_slack(curve, tranches, limit);
}

/// Eight comparable tranches never undercut one redemption of the same debt, but for eight units of
/// the rate and one of the fee: none is smaller than one part in eight thousand of the whole,
/// rounded down, the debt is at most two whole units of the rate's precision, and the divisor lies
/// between one half and six hundred thousand.
///
/// Tranches that are much smaller than the rest are left out, since many of them can lose more.
pub proof fn law_comparable_tranches_never_undercut(
    curve: DynamicFeeCurve,
    tranches: Seq<int>,
    limit: int,
)
    requires
        splits(curve, tranches),
        0 < tranches.len() <= 8,
        total(tranches) <= limit,
        DIV <= curve.divisor.inner * 2,
        curve.divisor.inner <= 600_000 * DIV,
        curve.debt <= 2 * DIV,
        forall|i: int|
            0 <= i < tranches.len() ==> total(tranches) <= 8_000 * (#[trigger] tranches[i] + 1),
    ensures
        rounded_fee(total(tranches), curve.rate(total(tranches)), limit) <= tranches_pay(
            curve,
            tranches,
            limit,
        ) + 8 * total(tranches) / DIV as int + 1,
{
    let t = total(tranches);
    lemma_total_is_natural(tranches);
    if 51 * t < 2 * DIV {
        law_tranches_never_undercut_a_small_redemption(curve, tranches, limit);
    } else {
        let d = curve.debt as int;
        let v = curve.divisor.inner as int;
        let least_tranche: int = 4_900_000_000_000;
        let unit = DIV as int;
        assert(9 * (d * d) * v <= 36 * (unit * unit) * v) by (nonlinear_arith)
            requires
                0 <= d <= 2 * unit,
                0 <= v,
        ;
        assert(36 * (unit * unit) * v <= (unit * unit) * (36 * (600_000 * unit)))
            by (nonlinear_arith)
            requires
                v <= 600_000 * unit,
                0 < unit,
        ;
        assert forall|i: int| 0 <= i < tranches.len() - 1 implies 9 * (curve.debt * curve.debt)
            * curve.divisor.inner <= #[trigger] tranches[i] * tranches[i + 1] * (DIV * DIV) by {
            let a = tranches[i];
            let b = tranches[i + 1];
            assert(t <= 8_000 * (a + 1) && t <= 8_000 * (b + 1));
            assert(least_tranche * least_tranche <= a * b) by (nonlinear_arith)
                requires
                    0 <= least_tranche <= a,
                    least_tranche <= b,
            ;
            assert(36 * (600_000 * unit) <= a * b);
            assert((unit * unit) * (36 * (600_000 * unit)) <= a * b * (unit * unit))
                by (nonlinear_arith)
                requires
                    36 * (600_000 * unit) <= a * b,
            ;
        }
        law_weighty_tranches_never_undercut(curve, tranches, limit);
    }
}

} // verus!
