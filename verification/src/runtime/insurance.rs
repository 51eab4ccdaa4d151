//! Insurance Fund accounts.

use crate::primitives::account::{stable_sub_account, sub_account, AccountBytes};
use vstd::prelude::*;

verus! {

/// The pallet that owns the insurance accounts of stablecoins without a peg-stability instance:
/// `pusd/ins`.
pub open spec fn insurance_fund_pallet_id() -> Seq<u8> {
    seq![0x70u8, 0x75u8, 0x73u8, 0x64u8, 0x2fu8, 0x69u8, 0x6eu8, 0x73u8]
}

/// Isolates each stablecoin's Insurance Fund cover in a separate account.
pub struct StableInsuranceAccount;

impl StableInsuranceAccount {
    /// The insurance account of a stablecoin with the little-endian number `stable_id`.
    ///
    /// A stablecoin that a peg-stability instance mints already names the account that the
    /// instance's fee revenue accrues to, and that revenue is what funds the coin's cover, so the
    /// instance's fee destination is its insurance account. Any other stablecoin gets its own
    /// sub-account.
    pub fn convert(fee_destination: Option<AccountBytes>, stable_id: [u8; 4]) -> (account:
        AccountBytes)
        ensures
            account@ == (match fee_destination {
                Some(destination) => destination@,
                None => sub_account(insurance_fund_pallet_id(), stable_id@),
            }),
    {
        match fee_destination {
            Some(destination) => destination,
            None => {
                let pallet_id: [u8; 8] = [0x70, 0x75, 0x73, 0x64, 0x2f, 0x69, 0x6e, 0x73];
                assert(pallet_id@ =~= insurance_fund_pallet_id());
                stable_sub_account(pallet_id, stable_id)
            },
        }
    }
}

} // verus!
