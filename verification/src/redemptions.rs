//! Exchange of stablecoin for collateral from the lowest-rate eligible vaults.
//!
//! Ordinary redemptions walk dormant and active vaults, charge a market fee, and burn the redeemed
//! stablecoin. Final-recovery vaults are settled first, by recovery pricing and insurance cover.
//!
//! Configuration and dynamic fee state are kept per stablecoin, shared by every collateral market
//! that issues it: the fee nudges how much of the coin is redeemed, whichever collateral the
//! redeemer used.

pub mod climb_area;
pub mod decay_laws;
pub mod error;
pub mod fee_laws;
pub mod fees;
pub mod lifecycle;
pub mod offset;
pub mod outcome_laws;
pub mod pallet;
pub mod payout_laws;
pub mod policy_laws;
pub mod quote_laws;
pub mod rate_laws;
pub mod recovery;
pub mod recovery_laws;
pub mod redemption;
pub mod settlement_laws;
pub mod tranche_excess;
pub mod tranche_laws;
pub mod tranche_slack;
pub mod types;
pub mod walk_laws;
