use pusd::arithmetic::{ArithmeticError, FixedU128, Rounding, DIV};
use pusd::primitives::math::{
    collateral_for_value_ceil, collateral_for_value_floor, collateralization_ratio, mul_div,
    mul_div_floor, mul_div_rate_floor, mul_rate_ceil, CollateralRatio,
};
use pusd::primitives::vault::DebtCollateral;

#[test]
fn wrappers_preserve_zero_and_output_precision_rules() {
    assert_eq!(mul_div_floor(0u64, 1, 0), None);
    assert_eq!(mul_div_rate_floor(0u64, FixedU128::one(), 0), Some(FixedU128::zero()));
    assert_eq!(mul_div_rate_floor(1u64, FixedU128::zero(), 0), Some(FixedU128::zero()));
    assert_eq!(mul_div_rate_floor(1u64, FixedU128::one(), 0), None);
    assert_eq!(collateral_for_value_floor(0u64, FixedU128::zero()), None);
    assert_eq!(collateral_for_value_ceil(0u64, FixedU128::zero()), None);
    // A fixed-point result may exceed the input balance's representation.
    assert_eq!(
        mul_div_rate_floor(u64::MAX, FixedU128::one(), 1),
        Some(FixedU128::from_inner(u128::from(u64::MAX) * DIV)),
    );
    assert_eq!(mul_rate_ceil(3u64, FixedU128::from_rational(1, 2)), Some(2));
    assert_eq!(mul_rate_ceil(u64::MAX, FixedU128::from_u32(2)), None);
    assert_eq!(mul_rate_ceil(0u64, FixedU128::from_inner(u128::MAX)), Some(0));
}

#[test]
fn mul_div_rate_floor_round_trips_small_inputs() {
    let got = mul_div_rate_floor::<u128>(100, FixedU128::one(), 1_000).expect("fits");
    assert_eq!(got, FixedU128::from_rational(1u128, 10u128));
}

#[test]
fn mul_div_rate_zero_value_returns_zero() {
    assert_eq!(mul_div_rate_floor::<u128>(0, FixedU128::one(), 1_000), Some(FixedU128::zero()));
}

#[test]
fn mul_div_rate_floor_overflow_returns_none() {
    let got = mul_div_rate_floor(u128::MAX / 2, FixedU128::one(), 1);
    assert!(got.is_none());
    // Values below the overflow limit are not rejected.
    let safe = mul_div_rate_floor(u128::MAX / (DIV * 2), FixedU128::one(), 1);
    assert!(safe.is_some());
}

#[test]
fn mul_div_rate_floor_matches_two_step_when_safe() {
    let rate = FixedU128::from_rational(5u128, 100u128);
    let got = mul_div_rate_floor::<u128>(10_000, rate, 100).expect("fits");
    let two_step = FixedU128::from_rational(10_000u128, 100u128).saturating_mul(rate);
    assert!(got.into_inner().abs_diff(two_step.into_inner()) <= 1);
}

#[test]
fn mul_div_rate_floor_avoids_two_step_overflow() {
    // The complete formula fits although `value / denominator` does not fit in `FixedU128`.
    let rate = FixedU128::from_inner(1);
    let got = mul_div_rate_floor(u128::MAX / 4, rate, 1);
    assert_eq!(got, Some(FixedU128::from_inner(u128::MAX / 4)));
}

#[test]
fn math_collateral_for_value_floors() {
    // 100 stablecoin at price 10 → 10 collateral.
    let price = FixedU128::from_rational(10, 1);
    assert_eq!(collateral_for_value_floor::<u128>(100, price), Some(10));
    // 105 stablecoin at price 10 → floor(10.5) = 10.
    assert_eq!(collateral_for_value_floor::<u128>(105, price), Some(10));
    // Sub-1.0 price scales up.
    assert_eq!(collateral_for_value_floor::<u128>(100, FixedU128::from_rational(1, 2)), Some(200));
    assert_eq!(collateral_for_value_floor::<u128>(0, FixedU128::one()), Some(0));
}

#[test]
fn math_collateral_for_value_ceils() {
    // 100 stablecoin at price 10 → exactly 10 collateral.
    let price = FixedU128::from_rational(10, 1);
    assert_eq!(collateral_for_value_ceil::<u128>(100, price), Some(10));
    // 105 stablecoin at price 10 → ceil(10.5) = 11 (the floor variant gives 10).
    assert_eq!(collateral_for_value_ceil::<u128>(105, price), Some(11));
    // Sub-1.0 price scales up: 100 / 0.9 = 111.1… → 112.
    assert_eq!(collateral_for_value_ceil::<u128>(100, FixedU128::from_rational(9, 10)), Some(112));
    assert_eq!(collateral_for_value_ceil::<u128>(0, FixedU128::one()), Some(0));
}

#[test]
fn math_collateral_for_value_fails_loudly() {
    // A zero price cannot size anything, in either rounding direction.
    assert_eq!(collateral_for_value_floor::<u128>(100, FixedU128::zero()), None);
    assert_eq!(collateral_for_value_ceil::<u128>(100, FixedU128::zero()), None);
    // A sub-1.0 price doubles the value past u128::MAX.
    let half = FixedU128::from_rational(1, 2);
    assert_eq!(collateral_for_value_floor::<u128>(u128::MAX, half), None);
    // The result fits u128 but not the caller's narrower balance.
    assert_eq!(collateral_for_value_floor::<u64>(u64::MAX, half), None);
}

#[test]
fn mul_div_rounds_as_asked() {
    // 7 / 2 = 3.5, 5 / 4 = 1.25.
    assert_eq!(mul_div::<u128>(7, 1, 2, Rounding::Down), Some(3));
    assert_eq!(mul_div::<u128>(7, 1, 2, Rounding::Up), Some(4));
    assert_eq!(mul_div::<u128>(7, 1, 2, Rounding::NearestPrefUp), Some(4));
    assert_eq!(mul_div::<u128>(7, 1, 2, Rounding::NearestPrefDown), Some(3));
    assert_eq!(mul_div::<u128>(5, 1, 4, Rounding::NearestPrefUp), Some(1));
    assert_eq!(mul_div::<u128>(7, 1, 4, Rounding::NearestPrefDown), Some(2));
    // The product is wide: only the quotient must fit.
    assert_eq!(
        mul_div::<u128>(u128::MAX, u128::MAX, u128::MAX, Rounding::Down),
        Some(u128::MAX)
    );
    assert_eq!(mul_div::<u128>(u128::MAX, 2, 1, Rounding::Down), None);
    assert_eq!(mul_div::<u64>(u128::from(u64::MAX), 2, 1, Rounding::Down), None);
    assert_eq!(mul_div::<u128>(1, 1, 0, Rounding::Up), None);
}

#[test]
fn collateralization_ratio_of_a_position() {
    let price = FixedU128::from_rational(5, 4);
    let position = DebtCollateral { debt: 500u128, collateral: 1_000u128 };
    assert_eq!(
        collateralization_ratio(&position, price),
        Ok(CollateralRatio::Ratio(FixedU128::from_rational(5, 2)))
    );
    let free = DebtCollateral { debt: 0u128, collateral: 1_000u128 };
    assert_eq!(collateralization_ratio(&free, price), Ok(CollateralRatio::DebtFree));
    let vast = DebtCollateral { debt: 1u128, collateral: u128::MAX };
    assert_eq!(collateralization_ratio(&vast, price), Err(ArithmeticError::Overflow));
}
