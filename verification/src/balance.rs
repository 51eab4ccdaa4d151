//! Unsigned amounts of an asset.

use vstd::prelude::*;

verus! {

/// An unsigned integer type that holds amounts of an asset.
///
/// Every amount fits in a `u128`; a narrower type has a smaller `limit`.
pub trait Balance: Copy {
    /// The amount as a number.
    spec fn amount(self) -> nat;

    /// The greatest amount the type holds.
    spec fn limit() -> nat;

    /// The value that holds `amount`, for an amount within the limit.
    spec fn of(amount: nat) -> Self;

    /// Every value holds an amount within the limit, and is the only value that holds it.
    proof fn holds_its_amount(self)
        ensures
            self.amount() <= Self::limit() <= u128::MAX,
            Self::of(self.amount()) == self,
    ;

    /// The limit fits in the widest type.
    proof fn max_holds()
        ensures
            Self::limit() <= u128::MAX,
    ;

    /// Every amount within the limit is held by some value.
    proof fn of_holds(amount: nat)
        requires
            amount <= Self::limit(),
        ensures
            Self::of(amount).amount() == amount,
    ;

    /// The amount in the widest type.
    fn into_u128(self) -> (wide: u128)
        ensures
            wide == self.amount(),
    ;

    /// The value that holds `wide`, or `None` above the limit.
    fn try_from_u128(wide: u128) -> (narrow: Option<Self>)
        ensures
            narrow == (if wide <= Self::limit() {
                Some(Self::of(wide as nat))
            } else {
                None
            }),
    ;

    /// The value that holds nothing.
    fn zero() -> (nothing: Self)
        ensures
            nothing.amount() == 0,
    ;

    /// The greatest value.
    fn max_value() -> (greatest: Self)
        ensures
            greatest.amount() == Self::limit(),
            greatest == Self::of(Self::limit()),
    ;
}

/// The value that holds `amount`, or `None` where the type is too narrow for it.
pub open spec fn fitted<B: Balance>(amount: int) -> Option<B> {
    if 0 <= amount <= B::limit() {
        Some(B::of(amount as nat))
    } else {
        None
    }
}

impl Balance for u128 {
    open spec fn amount(self) -> nat {
        self as nat
    }

    open spec fn limit() -> nat {
        u128::MAX as nat
    }

    open spec fn of(amount: nat) -> u128 {
        amount as u128
    }

    proof fn holds_its_amount(self) {
    }

    proof fn max_holds() {
    }

    proof fn of_holds(amount: nat) {
    }

    fn into_u128(self) -> (wide: u128) {
        self
    }

    fn try_from_u128(wide: u128) -> (narrow: Option<u128>) {
        Some(wide)
    }

    fn zero() -> (nothing: u128) {
        0
    }

    fn max_value() -> (greatest: u128) {
        u128::MAX
    }
}

impl Balance for u64 {
    open spec fn amount(self) -> nat {
        self as nat
    }

    open spec fn limit() -> nat {
        u64::MAX as nat
    }

    open spec fn of(amount: nat) -> u64 {
        amount as u64
    }

    proof fn holds_its_amount(self) {
    }

    proof fn max_holds() {
    }

    proof fn of_holds(amount: nat) {
    }

    fn into_u128(self) -> (wide: u128) {
        self as u128
    }

    fn try_from_u128(wide: u128) -> (narrow: Option<u64>) {
        if wide <= u64::MAX as u128 {
            Some(wide as u64)
        } else {
            None
        }
    }

    fn zero() -> (nothing: u64) {
        0
    }

    fn max_value() -> (greatest: u64) {
        u64::MAX
    }
}

} // verus!
