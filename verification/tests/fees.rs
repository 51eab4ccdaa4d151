use pusd::arithmetic::{FixedU128, Permill, DIV};
use pusd::redemptions::fees::{
    decay_dynamic_fee, fee_rate, max_debt_for_budget, redemption_fee, scale_floor, DynamicFeeCurve,
};
use pusd::redemptions::types::{RedemptionConfig, RedemptionState};

const HOUR: u64 = 3_600_000;

/// Builds the default test policy.
///
/// The policy uses each unit's full share, a 0.5% base fee, and 100% ceilings that do not bind.
fn curve(decayed: FixedU128, debt: u128) -> DynamicFeeCurve {
    let config = RedemptionConfig {
        minimum_redemption_amount: 1,
        dynamic_fee_decay_period: 6 * HOUR,
        dynamic_fee_floor: FixedU128::zero(),
        dynamic_fee_ceiling: FixedU128::one(),
        base_fee: Permill::from_parts(5_000),
        fee_ceiling: Permill::one(),
        dynamic_fee_increase_divisor: FixedU128::one(),
        final_recovery_bonus_buffer: Permill::zero(),
    };
    DynamicFeeCurve::try_new(decayed, debt, &config).expect("u128 debt cannot overflow u128")
}

#[test]
fn decay_halves_over_one_half_life() {
    let base = FixedU128::from_rational(1, 2); // 50%
    assert_eq!(decay_dynamic_fee(base, 6 * HOUR, 6 * HOUR), FixedU128::from_rational(1, 4));
    assert_eq!(decay_dynamic_fee(base, 12 * HOUR, 6 * HOUR), FixedU128::from_rational(1, 8));
}

#[test]
fn decay_is_monotonic_non_increasing() {
    let base = FixedU128::from_rational(80, 100);
    let mut prev = decay_dynamic_fee(base, 0, 6 * HOUR);
    for h in 1..=48u64 {
        let now = decay_dynamic_fee(base, h * HOUR, 6 * HOUR);
        assert!(now <= prev, "decay rose at hour {h}: {now:?} > {prev:?}");
        prev = now;
    }
}

#[test]
fn decay_zero_inputs() {
    let base = FixedU128::from_rational(1, 2);
    assert_eq!(decay_dynamic_fee(base, 0, HOUR), base);
    assert_eq!(decay_dynamic_fee(FixedU128::zero(), HOUR, HOUR), FixedU128::zero());
    assert_eq!(decay_dynamic_fee(base, 200 * HOUR, HOUR), FixedU128::zero());
}

/// Verifies decay behavior at the time-span boundaries.
///
/// The policy rejects a zero half-life, but the decay function treats it as instant decay. A
/// `u64::MAX` span with a one-millisecond half-life exceeds 128 halvings.
///
/// A span and a half-life that both equal `u64::MAX` give exactly one halving.
#[test]
fn decay_edge_spans() {
    let base = FixedU128::from_rational(1, 2);
    assert_eq!(decay_dynamic_fee(base, 1, 0), FixedU128::zero());
    assert_eq!(decay_dynamic_fee(base, u64::MAX, 1), FixedU128::zero());
    assert_eq!(decay_dynamic_fee(base, u64::MAX, u64::MAX), FixedU128::from_rational(1, 4));
    assert_eq!(
        decay_dynamic_fee(base, 127 * HOUR, HOUR),
        FixedU128::from_inner(base.into_inner() >> 127)
    );
    assert_eq!(decay_dynamic_fee(base, 128 * HOUR, HOUR), FixedU128::zero());
}

#[test]
fn redemption_state_exposes_the_bounded_fee_effective_at_now() {
    let config = RedemptionConfig {
        minimum_redemption_amount: 1u128,
        dynamic_fee_decay_period: 6 * HOUR,
        dynamic_fee_floor: FixedU128::from_rational(1, 10),
        dynamic_fee_ceiling: FixedU128::from_rational(2, 5),
        base_fee: Permill::zero(),
        fee_ceiling: Permill::one(),
        dynamic_fee_increase_divisor: FixedU128::one(),
        final_recovery_bonus_buffer: Permill::zero(),
    };
    let state = RedemptionState {
        dynamic_fee: FixedU128::from_rational(1, 2),
        last_fee_operation: HOUR,
    };

    assert_eq!(state.dynamic_fee_at(7 * HOUR, &config), FixedU128::from_rational(1, 4));
    assert_eq!(state.dynamic_fee_at(19 * HOUR, &config), config.dynamic_fee_floor);
    // A clock before the last operation causes no decay. The bounds still apply.
    assert_eq!(state.dynamic_fee_at(0, &config), config.dynamic_fee_ceiling);
    assert_eq!(state.dynamic_fee_at(HOUR - 1, &config), config.dynamic_fee_ceiling);
}

/// Verifies the rise for a debt of `1e18` units, where each unit is one `1e-18` of share.
#[test]
fn rise_is_the_redeemed_share_over_the_divisor() {
    let mut curve = curve(FixedU128::zero(), DIV);
    curve.divisor = FixedU128::from_rational(2, 1);
    assert_eq!(curve.rise(0), Some(FixedU128::zero()));
    assert_eq!(curve.rise(2), Some(FixedU128::from_inner(1)));
    let third = DIV / 3;
    assert_eq!(curve.rise(third), Some(FixedU128::from_inner(third / 2)));
    // The share of all debt or more is one.
    assert_eq!(curve.rise(DIV), Some(FixedU128::from_rational(1, 2)));
    assert_eq!(curve.rise(DIV + 1), Some(FixedU128::from_rational(1, 2)));
    assert_eq!(curve.rise(u128::MAX), Some(FixedU128::from_rational(1, 2)));
}

#[test]
fn raised_dynamic_fee_caps_at_the_ceiling() {
    let curve = curve(FixedU128::from_rational(90, 100), 1_000);
    assert_eq!(curve.dynamic_fee_after(900), Some(FixedU128::from_rational(180, 100)));
    assert_eq!(curve.raised_dynamic_fee(900), FixedU128::one());
}

#[test]
fn raised_dynamic_fee_adds_the_share_over_the_divisor() {
    let curve = curve(FixedU128::from_rational(10, 100), 1_000);
    assert_eq!(curve.raised_dynamic_fee(400), FixedU128::from_rational(50, 100));
}

#[test]
fn charged_rate_is_base_plus_the_mean_dynamic_fee() {
    // The dynamic fee climbs from 10% to 50%. Its mean is 30%.
    let curve = curve(FixedU128::from_rational(10, 100), 1_000);
    assert_eq!(curve.charged_rate(400), FixedU128::from_rational(305, 1_000));
}

#[test]
fn charged_rate_climbs_to_the_ceiling_then_pays_it_flat() {
    let mut curve = curve(FixedU128::zero(), 1_000_000);
    curve.dynamic_fee_ceiling = FixedU128::from_rational(1, 100);
    // The dynamic fee reaches 1% after the share `0.01 · 1`.
    let climb = 10_000u128;
    // Up to the crossing, the plain mean applies: `0.5% + 0.9999% / 2`.
    assert_eq!(
        curve.charged_rate(climb - 1),
        FixedU128::from_rational(9_999_500_000_000_000, DIV)
    );
    assert_eq!(curve.charged_rate(climb), FixedU128::from_rational(1, 100));
    // After the crossing, the mean has the climb weighted at its share and the ceiling for the
    // other share. A quarter of a 4% share climbs at a 0.5% mean, and the rest pays 1%.
    assert_eq!(curve.charged_rate(4 * climb), FixedU128::from_rational(1_375, 100_000));
    // At the crossing, the dynamic-fee area is the triangle `climb · ceiling / 2`. After it,
    // the rectangle `(redeemed − climb) · ceiling` is added. Dividing their sum by `redeemed`
    // gives the mean dynamic fee. The two shapes meet without a jump in the rate or its slope.
    // Thus, no second difference exceeds the curvature at the crossing plus the `1e-18`
    // rounding of each rate.
    let rates: [i128; 5] = core::array::from_fn(|i| {
        i128::try_from(curve.charged_rate(climb - 2 + i as u128).into_inner())
            .expect("a rate is at most one")
    });
    let curvature: i128 = 100_000_000;
    for window in rates.windows(3) {
        let jump = (window[2] - window[1]) - (window[1] - window[0]);
        assert!(jump.abs() <= curvature + 4, "slope jumps by {jump} around the crossing");
    }
    // Arriving above the ceiling pays it flat from the first unit.
    curve.decayed = FixedU128::from_rational(1, 100);
    assert_eq!(curve.charged_rate(500_000), FixedU128::from_rational(15, 1_000));
}

#[test]
fn charged_rate_respects_the_fee_ceiling_above_the_dynamic_one() {
    let mut curve = curve(FixedU128::from_rational(30, 100), 1_000);
    curve.fee_ceiling = Permill::from_percent(20);
    // The dynamic component can increase to 100%. The 20% fee ceiling includes the base fee and
    // applies from the first unit.
    assert_eq!(curve.charged_rate(500), FixedU128::from_rational(20, 100));
    assert_eq!(curve.raised_dynamic_fee(500), FixedU128::from_rational(80, 100));
}

// These tests verify the curve-domain boundaries. Execution cannot reach most of them because a
// redemption target has debt and the walk cannot cancel more than the stablecoin debt.
// Configuration validation supplies the other bounds. The arithmetic is total and uses
// saturation instead of a panic or overflow.

/// Verifies the rate for redemption of all stablecoin debt or more.
///
/// All debt has a share of one, so the dynamic fee rises by `1 / divisor`. Above the total
/// debt, the share stays at one and the rate equals the full-redemption rate.
#[test]
fn full_and_over_full_redemptions_rise_by_the_divisor_reciprocal() {
    let mut curve = curve(FixedU128::zero(), 1_000);
    assert_eq!(curve.raised_dynamic_fee(1_000), FixedU128::one());
    assert_eq!(curve.raised_dynamic_fee(2_000), FixedU128::one());
    // The fee ceiling stops the dynamic climb at 99.5%, so the whole coin pays 50.49875%.
    assert_eq!(curve.charged_rate(1_000), FixedU128::from_rational(40_399, 80_000));
    assert_eq!(curve.fee(1_000u128), 505);
    assert_eq!(curve.charged_rate(2_000), curve.charged_rate(1_000));
    assert_eq!(curve.fee(2_000u128), 1_010);
    // A large divisor keeps even the whole coin far below the ceiling.
    curve.divisor = FixedU128::from_rational(1_000_000, 1);
    assert_eq!(curve.raised_dynamic_fee(1_000), FixedU128::from_rational(1, 1_000_000));
    assert_eq!(curve.raised_dynamic_fee(2_000), FixedU128::from_rational(1, 1_000_000));
}

/// Verifies the curve for a stablecoin without debt.
///
/// Each nonzero redemption has a share of one. It uses the full-redemption rate and rise.
#[test]
fn a_coin_without_debt_prices_every_redemption_as_the_whole_coin() {
    let empty = curve(FixedU128::zero(), 0);
    let whole = curve(FixedU128::zero(), 1_000);
    assert_eq!(empty.fee(0u128), 0);
    assert_eq!(empty.raised_dynamic_fee(0), whole.raised_dynamic_fee(1_000));
    assert_eq!(empty.charged_rate(1), whole.charged_rate(1_000));
    assert_eq!(empty.fee(1_000u128), whole.fee(1_000u128));
    assert_eq!(empty.raised_dynamic_fee(1), FixedU128::one());
}

/// Verifies the curve for a zero divisor that policy validation rejects.
///
/// The curve treats the zero divisor as an infinite accelerator and applies the ceiling from
/// the first unit.
#[test]
fn a_zero_divisor_pays_the_ceiling_from_the_first_unit() {
    let mut curve = curve(FixedU128::zero(), 1_000);
    curve.divisor = FixedU128::zero();
    assert_eq!(curve.raised_dynamic_fee(1), FixedU128::one());
    assert_eq!(curve.charged_rate(1), FixedU128::one());
    assert_eq!(curve.fee(100u128), 100);
    curve.dynamic_fee_ceiling = FixedU128::from_rational(10, 100);
    assert_eq!(curve.raised_dynamic_fee(1), FixedU128::from_rational(10, 100));
    assert_eq!(curve.charged_rate(1), FixedU128::from_rational(105, 1_000));
}

/// Verifies a redemption that starts at or above the dynamic-fee ceiling.
///
/// This state can occur after a policy decreases its ceiling below a stored fee. The redemption
/// pays the ceiling and does not increase the stored fee.
#[test]
fn arriving_at_or_above_the_ceiling_pays_it_flat() {
    let ceiling = FixedU128::from_rational(10, 100);
    let flat = FixedU128::from_rational(105, 1_000);
    let mut curve = curve(ceiling, 1_000);
    curve.dynamic_fee_ceiling = ceiling;
    assert_eq!(curve.charged_rate(300), flat);
    assert_eq!(curve.fee(300u128), 32);
    assert_eq!(curve.raised_dynamic_fee(300), ceiling);
    curve.decayed = FixedU128::from_rational(20, 100);
    assert_eq!(curve.charged_rate(300), flat);
    assert_eq!(curve.charged_rate(0), flat);
    assert_eq!(curve.raised_dynamic_fee(300), ceiling);
    assert_eq!(curve.raised_dynamic_fee(0), ceiling);
}

/// Verifies a policy in which the base fee equals the fee ceiling.
///
/// The policy permits equality but rejects an inverted range. The charged rate stays at the fee
/// ceiling while the stored dynamic fee increases.
#[test]
fn no_headroom_above_the_base_fee_charges_the_fee_ceiling_flat() {
    let mut curve = curve(FixedU128::zero(), 1_000);
    curve.fee_ceiling = Permill::from_parts(5_000);
    assert_eq!(curve.charged_rate(400), FixedU128::from_rational(5, 1_000));
    assert_eq!(curve.fee(400u128), 2);
    let climbed = curve.raised_dynamic_fee(400);
    assert_eq!(climbed, FixedU128::from_rational(40, 100));
    curve.base_fee = Permill::from_percent(2);
    curve.fee_ceiling = Permill::from_percent(1);
    assert_eq!(curve.charged_rate(400), FixedU128::from_rational(1, 100));
    assert_eq!(curve.fee(400u128), 4);
    assert_eq!(curve.raised_dynamic_fee(400), climbed);
}

/// Verifies that a zero redemption has zero cost and does not increase the dynamic fee.
///
/// The charged rate equals the arrival rate, subject to the ceiling.
#[test]
fn a_redemption_of_nothing_pays_nothing_and_moves_nothing() {
    let curve = curve(FixedU128::from_rational(3, 100), 1_000);
    assert_eq!(curve.fee(0u128), 0);
    assert_eq!(curve.charged_rate(0), FixedU128::from_rational(35, 1_000));
    assert_eq!(curve.raised_dynamic_fee(0), FixedU128::from_rational(3, 100));
}

/// Verifies that the arithmetic supports the largest balances.
///
/// One unit of a `u128::MAX` debt has a negligible share and pays the base fee. All but one
/// unit has the same rate as a small full redemption.
#[test]
fn the_largest_balances_stay_inside_the_arithmetic() {
    let vast = curve(FixedU128::zero(), u128::MAX);
    assert_eq!(vast.fee(1u128), 1);
    assert_eq!(vast.raised_dynamic_fee(1), FixedU128::zero());
    let nearly_all = u128::MAX - 1;
    let rate = vast.charged_rate(nearly_all);
    let small = curve(FixedU128::zero(), 1_000).charged_rate(1_000);
    assert!(rate.into_inner().abs_diff(small.into_inner()) <= 4, "{rate:?} vs {small:?}");
    let fee = vast.fee(nearly_all);
    assert!(fee <= nearly_all);
    assert!(fee > nearly_all / 2);
    let full = FixedU128::one();
    let raised = vast.raised_dynamic_fee(nearly_all);
    assert!(raised.into_inner().abs_diff(full.into_inner()) <= 1, "{raised:?}");
    assert_eq!(vast.raised_dynamic_fee(u128::MAX), full);
}

/// Applies `tranches` in sequence against the debt that each prior tranche leaves.
///
/// Each tranche starts at the dynamic fee from the prior tranche. The function returns the
/// total fees and the final dynamic fee.
fn redeem_in_tranches(mut curve: DynamicFeeCurve, tranches: &[u128]) -> (u128, FixedU128) {
    let mut fee = 0u128;
    for &tranche in tranches {
        fee += curve.fee(tranche);
        curve.decayed = curve.raised_dynamic_fee(tranche);
        curve.debt -= tranche;
    }
    (fee, curve.decayed)
}

/// A curve without a base fee whose debt is so large that each tranche's rise is a few units of
/// rounding.
fn coarse_curve() -> DynamicFeeCurve {
    DynamicFeeCurve {
        divisor: FixedU128::from_rational(51, 100),
        base_fee: Permill::zero(),
        ..curve(FixedU128::zero(), 1_000_000_000_000_000_000_000_000_000_000_000_000)
    }
}

/// Two tranches stay within eight units of the rate of one redemption, and a unit of the fee.
#[test]
fn two_tranches_stay_within_the_rate_slack() {
    let tranche = 1_999_000_000_000_000_000u128;
    let at_once = coarse_curve().fee(2 * tranche);
    let (split, _) = redeem_in_tranches(coarse_curve(), &[tranche, tranche]);
    assert_eq!((at_once, split), (8, 2));
    assert!(at_once <= split + 2 * tranche * 8 / DIV + 1);
}

/// The rises of eight such tranches lose so much to rounding that they fall short of one redemption
/// by more than eight units of its rate, though by no more than their rises lost.
#[test]
fn rounding_of_many_rises_can_exceed_the_rate_slack() {
    let tranche = 1_999_000_000_000_000_000u128;
    let total = 8 * tranche;
    let at_once = coarse_curve().fee(total);
    let (split, _) = redeem_in_tranches(coarse_curve(), &[tranche; 8]);
    assert_eq!((at_once, split), (224, 56));
    assert!(at_once > split + total * 8 / DIV + 1);
    // Each rise of 3.92 units is rounded to one: it loses three, rounded up.
    let lost: u128 = (0..8).map(|later| 3 * tranche * (1 + 2 * later)).sum();
    assert!(at_once <= split + (lost + 6 * total) / (2 * DIV) + 1);
}

/// Comparable tranches stay within eight units of the rate of one redemption, and a unit of the fee:
/// they climb faster against the debt that the earlier ones left.
#[test]
fn comparable_tranches_stay_within_the_rate_slack() {
    for (divisor, debt) in [(50, 1_998_000_000_000_000_000), (51, 1_000), (2_000, 40_000_000_000)] {
        let start = DynamicFeeCurve {
            divisor: FixedU128::from_rational(divisor, 100),
            base_fee: Permill::zero(),
            ..curve(FixedU128::zero(), debt)
        };
        let total = debt / 2;
        for weights in [[1u128; 8], [1, 1, 1, 1, 1, 1, 1, 1_000], [1_000, 1, 1, 1, 1, 1, 1, 1]] {
            let sum: u128 = weights.iter().sum();
            let mut tranches = weights.map(|weight| total * weight / sum);
            tranches[7] += total - tranches.iter().sum::<u128>();
            let (split, _) = redeem_in_tranches(start, &tranches);
            assert!(start.fee(total) <= split + total * 8 / DIV + 1);
        }
    }
}

/// Many tranches that are minute beside the last one can lose more, however small the debt.
#[test]
fn minute_tranches_can_exceed_the_rate_slack() {
    let start = DynamicFeeCurve {
        dynamic_fee_ceiling: FixedU128::from_inner(1_906_338_040_035_128_847),
        divisor: FixedU128::from_inner(508_916_228_617_216_163),
        base_fee: Permill::from_parts(394_613),
        ..curve(FixedU128::from_inner(9), 1_690_688_090_338_008_755)
    };
    let tranches = [5, 5, 5, 5, 5, 5, 5, 349_741_328_603_150_199u128];
    let total: u128 = tranches.iter().sum();
    let (split, _) = redeem_in_tranches(start, &tranches);
    assert_eq!(start.fee(total), split + total * 8 / DIV + 1 + 3);
}

/// Verifies the worked example: 20_000 of a 500_480 debt from a zero dynamic fee, at once and
/// in halves.
///
/// At once, the share is 3.996%, so the dynamic fee climbs by 3.996%. The redemption pays the
/// 1.998% mean above the 0.5% base fee: `ceil(20_000 · 2.498%) = 500`.
///
/// In halves, the first climbs to 1.998% and pays `ceil(149.90) = 150`. The second takes its
/// share of the remaining 490_480, climbs by 2.039% to 4.037%, and pays `ceil(351.75) = 352`.
/// Thus, the halves pay two units more and leave a higher dynamic fee.
#[test]
fn the_worked_example_at_once_and_in_halves() {
    let example = curve(FixedU128::zero(), 500_480);
    assert_eq!(example.fee(20_000u128), 500);
    let raised = example.raised_dynamic_fee(20_000);
    assert!(raised.into_inner().abs_diff(39_961_636_828_644_500) <= 1, "{raised:?}");
    assert_eq!(example.fee(10_000u128), 150);
    let (split_fee, split_raised) = redeem_in_tranches(example, &[10_000, 10_000]);
    assert_eq!(split_fee, 502);
    assert!(
        split_raised.into_inner().abs_diff(40_369_009_574_002_562) <= 2,
        "{split_raised:?}"
    );
    assert!(split_raised > raised);
}

#[test]
fn fee_rate_clamps_to_bounds() {
    let base = Permill::from_parts(5_000); // 0.5%
    let ceiling = Permill::one();
    assert_eq!(fee_rate(FixedU128::zero(), base, ceiling), FixedU128::from_rational(5, 1000));
    assert_eq!(fee_rate(FixedU128::from_rational(2, 1), base, ceiling), FixedU128::one());
    assert_eq!(
        fee_rate(FixedU128::from_rational(10, 100), base, ceiling),
        FixedU128::from_rational(105, 1000)
    );
}

#[test]
fn redemption_fee_rounds_up() {
    assert_eq!(redemption_fee(100u128, FixedU128::from_rational(5, 1000)), 1);
    assert_eq!(redemption_fee(1000u128, FixedU128::from_rational(5, 1000)), 5);
    assert_eq!(redemption_fee(0u128, FixedU128::one()), 0);
}

#[test]
fn max_debt_for_budget_accounts_for_fee() {
    let at = |rate| move |debt| redemption_fee(debt, rate);
    assert_eq!(max_debt_for_budget(1000u128, at(FixedU128::zero())), 1000);
    assert_eq!(max_debt_for_budget(1000u128, at(FixedU128::one())), 500);
    assert_eq!(max_debt_for_budget(1000u128, at(FixedU128::from_rational(5, 1000))), 995);
}

/// Verifies budget-search boundaries.
///
/// A zero budget buys zero debt. A budget below one debt unit plus its fee also buys zero debt.
/// At `u128::MAX`, the debt-fee sum must not wrap to a value within the budget.
#[test]
fn max_debt_for_budget_edge_inputs() {
    let whole = |debt: u128| debt;
    assert_eq!(max_debt_for_budget(0, whole), 0);
    assert_eq!(max_debt_for_budget(1, whole), 0);
    assert_eq!(max_debt_for_budget(2, whole), 1);
    assert_eq!(max_debt_for_budget(u128::MAX, whole), u128::MAX / 2);
    assert_eq!(max_debt_for_budget(u128::MAX, |_| 0), u128::MAX);
}

#[test]
fn max_debt_for_budget_lands_on_the_curve() {
    let curve = curve(FixedU128::zero(), 10_000);
    let budget = 1_000u128;
    let debt = max_debt_for_budget(budget, |debt| curve.fee(debt));
    assert!(debt + curve.fee(debt) <= budget);
    assert!(debt + 1 + curve.fee(debt + 1) > budget);
}

#[test]
fn scale_floor_basic() {
    assert_eq!(scale_floor(100u128, 1, 2), 50);
    assert_eq!(scale_floor(100u128, 3, 4), 75);
    assert_eq!(scale_floor(100u128, 1, 0), 0);
}

/// Fee of `tranches` against that of one redemption of the same debt, and what either leaves the
/// dynamic fee at.
fn at_once_and_split(curve: DynamicFeeCurve, tranches: &[u128]) -> (u128, u128, u128, u128) {
    let total: u128 = tranches.iter().sum();
    let (fee, raised) = redeem_in_tranches(curve, tranches);
    (
        curve.fee(total),
        fee,
        curve.raised_dynamic_fee(total).into_inner(),
        raised.into_inner(),
    )
}

/// Largest difference of two rates that ought to be the same.
const RATE_SLACK: u128 = 8;

fn policies() -> Vec<DynamicFeeCurve> {
    let mut curves = Vec::new();
    for (decayed, divisor, dynamic_ceiling, base, ceiling) in [
        (0, 100, 1_000_000, 5_000, 1_000_000),
        (100_000, 50, 200_000, 0, 150_000),
        (50_000, 200, 60_000, 20_000, 1_000_000),
        (200_000, 2_000, 100_000, 1_000, 50_000),
        (0, 75, 1_000, 5_000, 5_000),
    ] {
        let mut policy = curve(FixedU128::from_rational(decayed, 1_000_000), 0);
        policy.divisor = FixedU128::from_rational(divisor, 100);
        policy.dynamic_fee_ceiling = FixedU128::from_rational(dynamic_ceiling, 1_000_000);
        policy.base_fee = Permill::from_parts(base);
        policy.fee_ceiling = Permill::from_parts(ceiling);
        curves.push(policy);
    }
    curves
}

/// No schedule of tranches undercuts one redemption, and none leaves a lower dynamic fee, but for
/// rounding.
#[test]
fn tranches_never_undercut_one_redemption() {
    for mut policy in policies() {
        for (tranches, left) in [
            (vec![10_000u128, 10_000], 480_480u128),
            (vec![1, 2, 3, 4, 5, 6, 7, 8], 1),
            (vec![999_000_000, 1, 500_000_000], 3_000_000_000),
            (vec![7; 8], 1_000_000),
            (vec![123_456_789_012_345_678, 1, 1], 1_000_000_000_000_000_000),
        ] {
            let total: u128 = tranches.iter().sum();
            policy.debt = total + left;
            let (whole, split, raised, split_raised) = at_once_and_split(policy, &tranches);
            let count = tranches.len() as u128;
            let slack = total * RATE_SLACK / DIV + 1;
            assert!(split + slack >= whole, "{split} in tranches undercuts {whole} at once");
            assert!(split_raised + RATE_SLACK * (count + 1) >= raised);
            // The faster climb against what is left bounds the excess.
            let largest = (total * DIV).div_ceil(left).min(u128::MAX / DIV);
            let smallest = total * DIV / policy.debt;
            if largest < 100 * DIV {
                let excess = (largest - smallest) * 100 / 50;
                assert!(split_raised <= raised + excess + RATE_SLACK * (count + 1));
            }
        }
    }
}

/// A larger redemption never pays less, nor at a lower rate, nor leaves a lower dynamic fee, but
/// for rounding. A higher arrival fee never lowers the cost.
#[test]
fn fee_rate_and_raised_fee_never_fall_with_the_redeemed_debt() {
    for mut policy in policies() {
        policy.debt = 1_000_000;
        let mut higher = policy;
        higher.decayed = policy.decayed.saturating_add(FixedU128::from_rational(1, 100));
        let mut last = 0u128;
        for redeemed in [0, 1, 10, 999, 1_000, 10_000, 250_000, 999_999, 1_000_000, 2_000_000] {
            assert!(policy.fee(last) <= policy.fee(redeemed) + 1);
            assert!(
                policy.charged_rate(last).into_inner()
                    <= policy.charged_rate(redeemed).into_inner() + RATE_SLACK
            );
            assert!(policy.raised_dynamic_fee(last) <= policy.raised_dynamic_fee(redeemed));
            assert!(
                policy.charged_rate(redeemed).into_inner()
                    <= higher.charged_rate(redeemed).into_inner() + RATE_SLACK
            );
            assert!(policy.fee(redeemed) <= redeemed);
            last = redeemed;
        }
    }
}

/// The charged rate has no jump where the dynamic fee reaches its cap.
#[test]
fn charged_rate_has_no_jump_at_the_cap() {
    for (decayed, divisor, ceiling) in [(0, 100, 10_000), (5_000, 200, 10_000), (0, 50, 100_000)] {
        let mut policy = curve(FixedU128::from_rational(decayed, 1_000_000), 1_000_000);
        policy.divisor = FixedU128::from_rational(divisor, 100);
        policy.dynamic_fee_ceiling = FixedU128::from_rational(ceiling, 1_000_000);
        let crossing = u128::from((ceiling - decayed) * divisor / 100);
        let before = policy.charged_rate(crossing - 1).into_inner();
        let after = policy.charged_rate(crossing + 1).into_inner();
        let steepest = DIV / 1_000_000 * 100 / u128::from(divisor);
        assert!(after + RATE_SLACK >= before);
        assert!(after <= before + steepest + RATE_SLACK);
    }
}

/// Within a half-life the decay follows the secant: a quarter of the way, an eighth is gone.
#[test]
fn decay_within_a_half_life_follows_the_secant() {
    let base = FixedU128::from_rational(80, 100);
    assert_eq!(decay_dynamic_fee(base, HOUR, 4 * HOUR), FixedU128::from_rational(70, 100));
    assert_eq!(decay_dynamic_fee(base, 2 * HOUR, 4 * HOUR), FixedU128::from_rational(60, 100));
    assert_eq!(decay_dynamic_fee(base, 6 * HOUR, 4 * HOUR), FixedU128::from_rational(30, 100));
}

/// One more millisecond takes off no more where a half-life ends than within it.
#[test]
fn decay_is_continuous_where_half_lives_meet() {
    let base = FixedU128::from_rational(80, 100);
    for elapsed in [0, HOUR, 4 * HOUR - 1, 4 * HOUR, 8 * HOUR - 1, 8 * HOUR] {
        let now = decay_dynamic_fee(base, elapsed, 4 * HOUR).into_inner();
        let next = decay_dynamic_fee(base, elapsed + 1, 4 * HOUR).into_inner();
        let most = base.into_inner() / u128::from(8 * HOUR) + 3;
        assert!(now - next <= most, "decay jumped at {elapsed}: {now} > {next}");
    }
}

/// After half of a half-life the exact factor is the square root of one half, which three quarters
/// exceed.
#[test]
fn decay_is_not_below_the_exact_decay() {
    let base = FixedU128::one();
    let halfway = decay_dynamic_fee(base, 1, 2).into_inner();
    assert_eq!(halfway, 750_000_000_000_000_000);
    assert!(base.into_inner() * base.into_inner() <= halfway * halfway * 2);
    let later = decay_dynamic_fee(base, 3, 2).into_inner();
    assert_eq!(later, 375_000_000_000_000_000);
    assert!(base.into_inner() * base.into_inner() <= later * later * 8);
}

/// Zero thresholds, zero divisors and inverted ranges are no policy.
#[test]
fn only_usable_policies_are_valid() {
    let valid = RedemptionConfig {
        minimum_redemption_amount: 1u128,
        dynamic_fee_decay_period: HOUR,
        dynamic_fee_floor: FixedU128::one(),
        dynamic_fee_ceiling: FixedU128::one(),
        base_fee: Permill::one(),
        fee_ceiling: Permill::one(),
        dynamic_fee_increase_divisor: FixedU128::from_inner(1),
        final_recovery_bonus_buffer: Permill::zero(),
    };
    assert!(valid.is_valid());
    assert!(!RedemptionConfig { minimum_redemption_amount: 0, ..valid }.is_valid());
    assert!(!RedemptionConfig { dynamic_fee_decay_period: 0, ..valid }.is_valid());
    let inverted = FixedU128::from_rational(1, 2);
    assert!(!RedemptionConfig { dynamic_fee_ceiling: inverted, ..valid }.is_valid());
    assert!(!RedemptionConfig { fee_ceiling: Permill::from_percent(99), ..valid }.is_valid());
    let zero = FixedU128::zero();
    assert!(!RedemptionConfig { dynamic_fee_increase_divisor: zero, ..valid }.is_valid());
}
