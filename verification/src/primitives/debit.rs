//! Amount selection for fungible debits around the minimum-balance boundary.

use crate::balance::Balance;
use vstd::prelude::*;

verus! {

/// Whether a debit may consume the account.
#[derive(Clone, Copy, PartialEq, Eq, Structural, Debug)]
pub enum Preservation {
    /// The account may be consumed.
    Expendable,
    /// The account must keep its minimum balance.
    Preserve,
}

/// What an account can pay of one asset, net of freezes.
#[derive(Clone, Copy, PartialEq, Eq, Structural, Debug)]
pub struct ReducibleBalance<B> {
    /// The most a debit can take that keeps the account's minimum balance.
    pub preserved: B,
    /// The most a debit can take that may consume the account.
    pub expendable: B,
}

impl<B: Balance> ReducibleBalance<B> {
    /// Keeping the minimum balance never lets an account pay more.
    pub open spec fn consistent(self) -> bool {
        self.preserved.amount() <= self.expendable.amount()
    }

    /// Whether a debit of exactly `amount` under `preservation` has no side effect on the rest of
    /// the account: it keeps the minimum balance, or leaves no remainder to fold.
    pub open spec fn clean_debit(self, amount: nat, preservation: Preservation) -> bool {
        match preservation {
            Preservation::Preserve => amount <= self.preserved.amount(),
            Preservation::Expendable => amount == self.expendable.amount(),
        }
    }
}

/// The preservation under which debiting exactly `amount` cannot fold dust.
///
/// `Expendable` only when the debit takes the whole reducible balance, leaving no remainder to
/// fold, and `Preserve` otherwise, so that the ledger itself rejects a debit that would strand a
/// remainder below the minimum.
pub fn debit_preservation<B: Balance>(account: ReducibleBalance<B>, amount: B) -> (preservation:
    Preservation)
    ensures
        preservation == (if amount.amount() < account.expendable.amount() {
            Preservation::Preserve
        } else {
            Preservation::Expendable
        }),
{
    if amount.into_u128() < account.expendable.into_u128() {
        Preservation::Preserve
    } else {
        Preservation::Expendable
    }
}

/// The amount and preservation of [`reducible_debit`].
pub open spec fn reducible_debit_spec<B: Balance>(account: ReducibleBalance<B>, limit: B) -> (
    B,
    Preservation,
) {
    if limit.amount() <= account.preserved.amount() {
        (limit, Preservation::Preserve)
    } else if limit.amount() < account.expendable.amount() {
        (account.preserved, Preservation::Preserve)
    } else {
        (account.expendable, Preservation::Expendable)
    }
}

/// The greatest amount at or below `limit` that one exact debit removes with no side effect on the
/// rest of the account, with the preservation to pass.
///
/// A request that would leave a remainder below the minimum balance rounds down to the preserving
/// limit; a request at or above the whole reducible balance becomes a full `Expendable` drain.
/// Callers deciding whether to debit compare the returned amount against their request and refuse
/// on a shortfall.
pub fn reducible_debit<B: Balance>(account: ReducibleBalance<B>, limit: B) -> (debit: (
    B,
    Preservation,
))
    ensures
        debit == reducible_debit_spec(account, limit),
{
    let wanted = limit.into_u128();
    if wanted <= account.preserved.into_u128() {
        return (limit, Preservation::Preserve);
    }
    if wanted < account.expendable.into_u128() {
        (account.preserved, Preservation::Preserve)
    } else {
        (account.expendable, Preservation::Expendable)
    }
}

/// The selected debit is clean, stays within the limit, and no clean debit within the limit is
/// greater.
pub proof fn law_reducible_debit_is_the_greatest_clean_debit<B: Balance>(
    account: ReducibleBalance<B>,
    limit: B,
    amount: nat,
    preservation: Preservation,
)
    requires
        account.consistent(),
    ensures
        account.clean_debit(
            reducible_debit_spec(account, limit).0.amount(),
            reducible_debit_spec(account, limit).1,
        ),
        reducible_debit_spec(account, limit).0.amount() <= limit.amount(),
        amount <= limit.amount() && account.clean_debit(amount, preservation) ==> amount
            <= reducible_debit_spec(account, limit).0.amount(),
{
}

/// A limit that keeps the minimum balance is debited whole; one that reaches all that the account can
/// pay drains it; between the two, what keeps the minimum balance is debited. Only a drain may
/// consume the account, and an exact amount may exactly where it is all that the account can pay.
pub proof fn law_debit_by_limit(
    account: ReducibleBalance<u128>,
    limit: u128,
    preservation: Preservation,
)
    requires
        call_ensures(debit_preservation::<u128>, (account, limit), preservation),
    ensures
        ({
            let debit = reducible_debit_spec(account, limit);
            &&& limit <= account.preserved ==> debit == (limit, Preservation::Preserve)
            &&& account.preserved < limit < account.expendable ==> debit == (
                account.preserved,
                Preservation::Preserve,
            )
            &&& account.preserved < limit && account.expendable <= limit ==> debit == (
                account.expendable,
                Preservation::Expendable,
            )
        }),
        preservation == Preservation::Expendable <==> account.expendable <= limit,
{
}

} // verus!
