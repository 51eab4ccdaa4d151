//! Types, pricing and interfaces that the protocol's pallets share.

use crate::arithmetic::{fixed_of, scaled, FixedU128, Rounding, DIV};
use crate::balance::Balance;
use vstd::prelude::*;

pub mod account;
pub mod branch;
pub mod credit;
pub mod debit;
pub mod error;
pub mod liquidation;
pub mod list_id;
pub mod math;
pub mod oracle;
pub mod origin;
pub mod pricing_laws;
pub mod recovery_offset;
pub mod recovery_pricing;
pub mod registration;
pub mod stability_pool;
pub mod supply_ledger;
pub mod vault;
pub mod vault_interface;
pub mod yield_routing;

pub use branch::{BranchMode, BranchModeProvider};
pub use credit::{StableCredit, StableId};
pub use debit::{debit_preservation, reducible_debit, Preservation, ReducibleBalance};
pub use error::DispatchError;
pub use math::{mul_div_floor, mul_div_rate_floor, CollateralRatio};
pub use recovery_offset::RecoveryOffsetResult;
pub use recovery_pricing::InsuranceAdjusted;
pub use oracle::ProvidePrice;
pub use registration::OnBranchLifecycle;
pub use stability_pool::{OffsetLegs, StabilityPoolInspect, StabilityPoolOffset};
pub use vault::{DebtCollateral, VaultStatus};
pub use vault_interface::{RedemptionSettlement, RedemptionStepSnapshot, VaultInterface};
pub use yield_routing::OnBranchYield;

verus! {

/// Milliseconds.
pub type Millis = u64;

/// Milliseconds in a year of 365.25 days.
pub const MILLIS_PER_YEAR: Millis = 31_557_600_000;

/// `floor(price * collateral / debt)` as a collateralization ratio.
///
/// `None` without debt, where the ratio is undefined, and where either step overflows.
pub fn collateralization_ratio<B: Balance>(position: &DebtCollateral<B>, price: FixedU128) -> (ratio:
    Option<FixedU128>)
    ensures
        ratio == (if price.inner * position.collateral.amount() / DIV as int > B::limit() {
            None
        } else {
            fixed_of(
                scaled(
                    price.inner * position.collateral.amount() / DIV as int,
                    DIV as int,
                    position.debt.amount() as int,
                    Rounding::Down,
                ),
            )
        }),
{
    proof {
        assert(0 <= price.inner * position.collateral.amount()) by (nonlinear_arith);
        math::lemma_rounded_is_natural(
            price.inner * position.collateral.amount(),
            DIV as int,
            Rounding::Down,
        );
    }
    match price.checked_mul_int(position.collateral) {
        Some(value) => {
            proof {
                B::of_holds((price.inner * position.collateral.amount() / DIV as int) as nat);
            }
            FixedU128::checked_from_rational(value.into_u128(), position.debt.into_u128())
        },
        None => None,
    }
}

} // verus!
