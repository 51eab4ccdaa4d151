//! Redemption failures.

use crate::primitives::error::DispatchError;
use vstd::prelude::*;

verus! {

/// Errors of the redemption logic.
#[derive(Clone, Copy, PartialEq, Eq, Structural, Debug)]
pub enum Error {
    /// The budget cannot buy the minimum redemption amount of debt.
    BelowMinimumRedemptionAmount,
    /// No redeemable vault made any progress.
    NoRedeemableVault,
    /// The `FinalRecovery` head is above the initial ratio: it must exit recovery first.
    FinalRecoveryExitRequired,
    /// Output collateral fell short of the slippage floor.
    SlippageExceeded,
    /// The redeemer cannot cover the stablecoin the redemption requires.
    InsufficientStableBalance,
    /// No redemption config exists for this stablecoin.
    StablecoinNotRegistered,
    /// The oracle returned no usable price.
    OracleUnavailable,
    /// Withdrawing the Insurance Fund cover for a below-par settlement failed.
    InsuranceFundWithdrawFailed,
    /// The supplied redemption config is internally inconsistent.
    InvalidRedemptionConfig,
    /// The stablecoin's first market must supply a redemption config.
    RedemptionConfigRequired,
    /// Only a stablecoin's first market supplies a redemption config.
    RedemptionConfigNotExpected,
}

/// Reason for which a redemption operation fails.
#[derive(Clone, Copy, PartialEq, Eq, Debug)]
pub enum Failure {
    /// An error of the redemption logic.
    Pallet(Error),
    /// A failure from elsewhere.
    Dispatch(DispatchError),
}

} // verus!
