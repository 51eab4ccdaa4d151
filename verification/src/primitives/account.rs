//! Accounts that belong to pallets.

use vstd::prelude::*;

verus! {

/// Identifier of a pallet.
pub type PalletId = [u8; 8];

/// Identifier of an account.
pub type AccountBytes = [u8; 32];

/// The Blake2-256 digest of `data`.
pub uninterp spec fn blake2_256_digest(data: Seq<u8>) -> Seq<u8>;

/// What `PalletId`s are prefixed with in the accounts they own.
pub open spec fn pallet_prefix() -> Seq<u8> {
    seq![0x6du8, 0x6fu8, 0x64u8, 0x6cu8]
}

/// The first 32 of `bytes`, filled up with zeros.
pub open spec fn account_of(bytes: Seq<u8>) -> Seq<u8> {
    Seq::new(
        32,
        |i: int|
            if i < bytes.len() {
                bytes[i]
            } else {
                0u8
            },
    )
}

/// The sub-account of a pallet for a seed: prefix, pallet and seed, as far as they fit.
pub open spec fn sub_account(pallet_id: Seq<u8>, seed: Seq<u8>) -> Seq<u8> {
    account_of(pallet_prefix() + pallet_id + seed)
}

/// `sp_io::hashing::blake2_256`: the 32-byte Blake2 digest of `data`, which depends on `data`
/// alone.
#[verifier::external_body]
fn blake2_256(data: &[u8]) -> (digest: [u8; 32])
    ensures
        digest@ == blake2_256_digest(data@),
{
    sp_io::hashing::blake2_256(data)
}

/// `sp_runtime::traits::AccountIdConversion::into_sub_account_truncating` of a
/// `frame_support::PalletId` and a seed of raw bytes: the bytes `modl`, the pallet's and the
/// seed's, cut to the 32 bytes of an account or filled up with zeros.
#[verifier::external_body]
fn into_sub_account_truncating<const N: usize>(pallet_id: PalletId, seed: [u8; N]) -> (account:
    AccountBytes)
    ensures
        account@ == sub_account(pallet_id@, seed@),
{
    sp_runtime::traits::AccountIdConversion::<AccountBytes>::into_sub_account_truncating(
        &frame_support::PalletId(pallet_id),
        seed,
    )
}

/// Returns the seed of a market's sub-accounts, from the encoded identifiers of its collateral and
/// stablecoin.
///
/// The complete encoded pair is hashed, so that long identifiers do not lose bytes before the
/// digest is calculated.
pub fn market_seed(collateral_id: &[u8], stable_id: &[u8]) -> (seed: [u8; 32])
    ensures
        seed@ == blake2_256_digest(collateral_id@ + stable_id@),
{
    let mut pair: Vec<u8> = Vec::new();
    pair.extend_from_slice(collateral_id);
    pair.extend_from_slice(stable_id);
    assert(pair@ == collateral_id@ + stable_id@);
    blake2_256(pair.as_slice())
}

/// Returns a pallet's sub-account for one market, from the encoded identifiers of its collateral
/// and stablecoin. Only the encoded sub-account value is truncated, to fit an account.
pub fn market_sub_account(pallet_id: PalletId, collateral_id: &[u8], stable_id: &[u8]) -> (account:
    AccountBytes)
    ensures
        account@ == sub_account(pallet_id@, blake2_256_digest(collateral_id@ + stable_id@)),
{
    into_sub_account_truncating(pallet_id, market_seed(collateral_id, stable_id))
}

/// Returns a pallet's sub-account for a stablecoin, from the stablecoin's little-endian number.
pub fn stable_sub_account(pallet_id: PalletId, stable_id: [u8; 4]) -> (account: AccountBytes)
    ensures
        account@ == sub_account(pallet_id@, stable_id@),
{
    into_sub_account_truncating(pallet_id, stable_id)
}

/// Sub-accounts of different pallets are different, whatever they are for.
pub proof fn law_sibling_pallets_have_separate_sub_accounts(
    one: PalletId,
    other: PalletId,
    seed: Seq<u8>,
    other_seed: Seq<u8>,
)
    requires
        one@ != other@,
    ensures
        sub_account(one@, seed) != sub_account(other@, other_seed),
{
    let i = choose|i: int| 0 <= i < 8 && one@[i] != other@[i];
    assert(exists|i: int| 0 <= i < 8 && one@[i] != other@[i]) by {
        if forall|i: int| 0 <= i < 8 ==> one@[i] == other@[i] {
            assert(one@ =~= other@);
        }
    }
    assert(sub_account(one@, seed)[4 + i] == one@[i]);
    assert(sub_account(other@, other_seed)[4 + i] == other@[i]);
}

} // verus!
