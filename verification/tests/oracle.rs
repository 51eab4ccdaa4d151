use pusd::arithmetic::FixedU128;
use pusd::primitives::error::DispatchError;
use pusd::primitives::oracle::{zero_oracle_price, Get, OraclePriceConversion, ProvidePrice};

struct Prices;
impl ProvidePrice for Prices {
    type AssetId = u32;

    fn provide_price(collateral_id: &u32) -> Result<FixedU128, DispatchError> {
        match collateral_id {
            // One unit of asset 0 is worth 10, one unit of asset 1 is worth 4.
            0 => Ok(FixedU128::from_u32(10)),
            1 => Ok(FixedU128::from_u32(4)),
            2 => Ok(FixedU128::zero()),
            _ => Err(DispatchError::Unavailable),
        }
    }
}

struct ReferencelessPrices;
impl ProvidePrice for ReferencelessPrices {
    type AssetId = u32;

    fn provide_price(collateral_id: &u32) -> Result<FixedU128, DispatchError> {
        match collateral_id {
            1 => Err(DispatchError::Other("stale")),
            _ => Err(DispatchError::Unavailable),
        }
    }
}

struct WorthlessReference;
impl ProvidePrice for WorthlessReference {
    type AssetId = u32;

    fn provide_price(collateral_id: &u32) -> Result<FixedU128, DispatchError> {
        match collateral_id {
            0 => Ok(FixedU128::zero()),
            _ => Ok(FixedU128::from_u32(4)),
        }
    }
}

struct ZeroOrMissing;
impl ProvidePrice for ZeroOrMissing {
    type AssetId = u32;

    fn provide_price(collateral_id: &u32) -> Result<FixedU128, DispatchError> {
        match collateral_id {
            2 => Ok(FixedU128::zero()),
            _ => Err(DispatchError::Unavailable),
        }
    }
}

struct Native;
impl Get<u32> for Native {
    fn get() -> u32 {
        0
    }
}

struct ZeroReference;
impl Get<u32> for ZeroReference {
    fn get() -> u32 {
        2
    }
}

type Conversion = OraclePriceConversion<Prices, Native>;

#[test]
fn reference_is_identity_without_a_feed() {
    assert_eq!(Conversion::to_asset_balance(7u64, 0), Ok(7));
}

#[test]
fn reprices_by_the_ratio_of_quotes_rounding_up() {
    // 7 × 10 / 4 = 17.5 → 18.
    assert_eq!(Conversion::to_asset_balance(7u64, 1), Ok(18));
    assert_eq!(Conversion::to_asset_balance(8u64, 1), Ok(20));
}

#[test]
fn missing_feed_is_unavailable_and_zero_quote_is_not() {
    assert_eq!(Conversion::to_asset_balance(7u64, 9), Err(DispatchError::Unavailable));
    assert_eq!(Conversion::to_asset_balance(7u64, 2), Err(zero_oracle_price()));
}

#[test]
fn unusable_asset_feed_wins_over_a_missing_reference() {
    type Referenceless = OraclePriceConversion<ReferencelessPrices, Native>;
    assert_eq!(Referenceless::to_asset_balance(7u64, 1), Err(DispatchError::Other("stale")));
    assert_eq!(Referenceless::to_asset_balance(7u64, 9), Err(DispatchError::Unavailable));
}

#[test]
fn zero_quote_beside_a_missing_feed_never_permits_a_fallback() {
    // Zero asset quote, missing reference feed.
    type ZeroAsset = OraclePriceConversion<ZeroOrMissing, Native>;
    assert_eq!(ZeroAsset::to_asset_balance(7u64, 2), Err(zero_oracle_price()));
    assert_eq!(ZeroAsset::to_asset_balance(7u64, 9), Err(DispatchError::Unavailable));
    // Zero reference quote, missing asset feed.
    type ZeroRef = OraclePriceConversion<ZeroOrMissing, ZeroReference>;
    assert_eq!(ZeroRef::to_asset_balance(7u64, 9), Err(zero_oracle_price()));
}

#[test]
fn zero_reference_quote_never_prices_a_deposit_at_zero() {
    type Worthless = OraclePriceConversion<WorthlessReference, Native>;
    assert_eq!(Worthless::to_asset_balance(7u64, 1), Err(zero_oracle_price()));
    // The identity path does not consult the feed at all.
    assert_eq!(Worthless::to_asset_balance(7u64, 0), Ok(7));
}
