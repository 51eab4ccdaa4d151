//! Dispatch failures.

use crate::arithmetic::ArithmeticError;
use vstd::prelude::*;

verus! {

/// Reason for which a dispatch fails.
#[derive(Clone, Copy, PartialEq, Eq, Debug)]
pub enum DispatchError {
    /// A failure that only its text describes.
    Other(&'static str),
    /// The origin may not perform the operation.
    BadOrigin,
    /// A pallet's own error.
    Module {
        /// Index of the pallet.
        index: u8,
        /// The pallet's error.
        error: u32,
    },
    /// A calculation has no result.
    Arithmetic(ArithmeticError),
    /// Stored state contradicts itself.
    Corruption,
    /// A resource is not available at the moment.
    Unavailable,
}

} // verus!
