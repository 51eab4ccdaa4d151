//! Oracle prices and price conversions.

use crate::arithmetic::{ArithmeticError, FixedU128, Rounding};
use crate::balance::Balance;
use crate::primitives::error::DispatchError;
use crate::primitives::math::{mul_div, mul_div_spec};
use core::marker::PhantomData;
use vstd::prelude::*;
use vstd::std_specs::cmp::PartialEqSpec;

verus! {

/// Error for a feed that quotes a price of zero.
///
/// Distinct from [`DispatchError::Unavailable`] so that a worthless feed never permits a fallback
/// price source.
pub fn zero_oracle_price() -> (error: DispatchError)
    ensures
        error == DispatchError::Other("zero oracle price"),
{
    DispatchError::Other("zero oracle price")
}

/// A configured value.
pub trait Get<T> {
    /// The value.
    fn get() -> T;
}

/// Read-only access to a normalised price for a given collateral.
pub trait ProvidePrice {
    /// Identifier of a collateral.
    type AssetId: PartialEq;

    /// Latest price for `collateral_id`.
    ///
    /// If no feed exists, this function returns [`DispatchError::Unavailable`] and permits another
    /// price source. Any other error identifies an unusable feed and prohibits a fallback.
    fn provide_price(collateral_id: &Self::AssetId) -> Result<FixedU128, DispatchError>;
}

/// A feed's quote, with a zero quote as an unusable feed.
pub open spec fn usable(quote: Result<FixedU128, DispatchError>) -> Result<
    FixedU128,
    DispatchError,
> {
    match quote {
        Ok(price) => if price.inner == 0 {
            Err(DispatchError::Other("zero oracle price"))
        } else {
            Ok(price)
        },
        Err(error) => Err(error),
    }
}

/// `ceil(balance * reference / asset)` from two quotes.
///
/// An unusable feed prevails over a missing one, the asset's feed over the reference's.
pub open spec fn repriced<B: Balance>(
    balance: B,
    asset_quote: Result<FixedU128, DispatchError>,
    reference_quote: Result<FixedU128, DispatchError>,
) -> Result<B, DispatchError> {
    match (usable(asset_quote), usable(reference_quote)) {
        (Ok(asset), Ok(reference)) => match mul_div_spec::<B>(
            balance.amount() as int,
            reference.inner as int,
            asset.inner as int,
            Rounding::Up,
        ) {
            Some(amount) => Ok(amount),
            None => Err(DispatchError::Arithmetic(ArithmeticError::Overflow)),
        },
        (Ok(_), Err(reference_error)) => Err(reference_error),
        (Err(asset_error), Ok(_)) => Err(asset_error),
        (Err(asset_error), Err(reference_error)) => if asset_error == DispatchError::Unavailable {
            Err(reference_error)
        } else {
            Err(asset_error)
        },
    }
}

/// Converts `balance` of the reference asset by the ratio of two quotes, rounding up.
pub fn reprice<B: Balance>(
    balance: B,
    asset_quote: Result<FixedU128, DispatchError>,
    reference_quote: Result<FixedU128, DispatchError>,
) -> (amount: Result<B, DispatchError>)
    ensures
        amount == repriced(balance, asset_quote, reference_quote),
{
    // A zero quote is classified as unusable before precedence so that it never resolves to
    // `Unavailable` and permits a fallback.
    let (asset_price, reference_price) = match (
        usable_quote(asset_quote),
        usable_quote(reference_quote),
    ) {
        (Ok(asset_price), Ok(reference_price)) => (asset_price, reference_price),
        // Only `Unavailable` permits a fallback, so a missing asset feed beside an unusable
        // reference feed must surface the reference error.
        (Err(DispatchError::Unavailable), Err(reference_error)) => {
            return Err(reference_error);
        },
        (Err(asset_error), _) => {
            return Err(asset_error);
        },
        (Ok(_), Err(reference_error)) => {
            return Err(reference_error);
        },
    };
    match mul_div(
        balance.into_u128(),
        reference_price.inner,
        asset_price.inner,
        Rounding::Up,
    ) {
        Some(amount) => Ok(amount),
        None => Err(DispatchError::Arithmetic(ArithmeticError::Overflow)),
    }
}

/// A quote, with a zero price reported as an unusable feed.
fn usable_quote(quote: Result<FixedU128, DispatchError>) -> (price: Result<FixedU128, DispatchError>)
    ensures
        price == usable(quote),
{
    match quote {
        Ok(price) => {
            if price.is_zero() {
                Err(zero_oracle_price())
            } else {
                Ok(price)
            }
        },
        Err(error) => Err(error),
    }
}

/// Converts a reference amount to an asset amount from oracle prices.
///
/// The conversion uses the ratio of two [`ProvidePrice`] quotes and rounds up. If the asset is the
/// reference, it returns the balance unchanged without an oracle query.
pub struct OraclePriceConversion<Oracle, Reference>(PhantomData<(Oracle, Reference)>);

impl<Oracle: ProvidePrice, Reference: Get<Oracle::AssetId>> OraclePriceConversion<
    Oracle,
    Reference,
> {
    /// What a conversion into `asset` from `reference` comes to: the balance itself between equal
    /// assets, else the balance repriced by what the oracle quotes for the two.
    pub open spec fn converts<B: Balance>(
        balance: B,
        asset: Oracle::AssetId,
        reference: Oracle::AssetId,
        amount: Result<B, DispatchError>,
    ) -> bool {
        if asset.eq_spec(&reference) {
            amount == Ok::<B, DispatchError>(balance)
        } else {
            exists|
                asset_quote: Result<FixedU128, DispatchError>,
                reference_quote: Result<FixedU128, DispatchError>,
            |
                {
                    &&& #[trigger] call_ensures(Oracle::provide_price, (&asset,), asset_quote)
                    &&& #[trigger] call_ensures(
                        Oracle::provide_price,
                        (&reference,),
                        reference_quote,
                    )
                    &&& amount == repriced(balance, asset_quote, reference_quote)
                }
        }
    }

    /// The amount of `asset` that is worth `balance` of the reference asset.
    pub fn to_asset_balance<B: Balance>(balance: B, asset: Oracle::AssetId) -> (amount: Result<
        B,
        DispatchError,
    >)
        ensures
            Oracle::AssetId::obeys_eq_spec() ==> exists|reference: Oracle::AssetId| #[trigger]
                call_ensures(Reference::get, (), reference) && Self::converts(
                    balance,
                    asset,
                    reference,
                    amount,
                ),
    {
        let configured = Reference::get;
        let reference = configured();
        if asset == reference {
            return Ok(balance);
        }
        let feed = Oracle::provide_price;
        let asset_quote = feed(&asset);
        let reference_quote = feed(&reference);
        reprice(balance, asset_quote, reference_quote)
    }
}

/// A reference amount converts into the reference asset as itself, and into any other asset by what
/// the oracle quotes for the two.
pub proof fn law_conversion_into_the_reference_is_the_balance<
    Oracle: ProvidePrice,
    Reference: Get<Oracle::AssetId>,
    B: Balance,
>(
    balance: B,
    asset: Oracle::AssetId,
    reference: Oracle::AssetId,
    amount: Result<B, DispatchError>,
)
    requires
        OraclePriceConversion::<Oracle, Reference>::converts(balance, asset, reference, amount),
    ensures
        asset.eq_spec(&reference) ==> amount == Ok::<B, DispatchError>(balance),
        !asset.eq_spec(&reference) ==> exists|
            of_asset: Result<FixedU128, DispatchError>,
            of_reference: Result<FixedU128, DispatchError>,
        |
            {
                &&& #[trigger] call_ensures(Oracle::provide_price, (&asset,), of_asset)
                &&& #[trigger] call_ensures(Oracle::provide_price, (&reference,), of_reference)
                &&& amount == repriced(balance, of_asset, of_reference)
            },
{
}

} // verus!
