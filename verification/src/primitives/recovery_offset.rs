//! Recovery offsets: the Stability Pool cancels debt against the head of the recovery list at the
//! same settlement pricing as recovery redemptions.

use vstd::prelude::*;

verus! {

/// Result of one execution attempt against the head of the recovery list.
#[derive(Clone, Copy, PartialEq, Eq, Structural, Debug)]
pub enum RecoveryOffsetResult<B> {
    /// No head can be offset against.
    NoTarget,
    /// The head is below par.
    BelowPar,
    /// Debt of the head was cancelled.
    Applied {
        /// Collateral that the settlement paid out.
        collateral_out: B,
    },
}

} // verus!
