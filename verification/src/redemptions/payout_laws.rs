//! What a redemption step pays and receives, stated on amounts.

use crate::arithmetic::{ArithmeticError, FixedU128, DIV};
use crate::primitives::math::{collateralization_ratio_spec, CollateralRatio};
use crate::primitives::vault::{DebtCollateral, VaultStatus};
use crate::redemptions::recovery::Snapshot;
use crate::redemptions::redemption::{priced_step, Step};
use crate::redemptions::tranche_laws::lemma_quotient;
use vstd::prelude::*;

verus! {

/// Value of a vault's collateral, in whole units.
pub open spec fn worth(snapshot: Snapshot, price: FixedU128) -> int {
    snapshot.collateral * price.inner / DIV as int
}

/// Whether a vault has debt, and its value and its ratio to the debt are numbers of 128 bits.
pub open spec fn has_ratio(snapshot: Snapshot, price: FixedU128) -> bool {
    &&& 0 < snapshot.debt
    &&& worth(snapshot, price) <= u128::MAX
    &&& worth(snapshot, price) * DIV / snapshot.debt as int <= u128::MAX
}

/// Whether a vault's collateral is worth at least its debt.
pub open spec fn above_water(snapshot: Snapshot, price: FixedU128) -> bool {
    snapshot.collateral * price.inner >= snapshot.debt * DIV
}

/// Whether a vault in debt takes `payment` out of `budget`: all that it owes, with the terminal
/// charge, where the budget covers that, else what the budget covers of the base debt, but for one
/// unit that stays for a terminal charge.
pub open spec fn takes(snapshot: Snapshot, budget: int, payment: int) -> bool {
    let owed = snapshot.debt + snapshot.terminal_interest_charge;
    let reserved: int = if snapshot.terminal_interest_charge > 0 {
        1
    } else {
        0
    };
    &&& owed <= budget ==> payment == owed
    &&& budget < owed && budget < u128::MAX ==> {
        &&& payment <= budget
        &&& payment <= snapshot.debt - reserved
        &&& payment == budget || payment == snapshot.debt - reserved
    }
    &&& budget < owed && budget == u128::MAX ==> payment == u128::MAX
}

/// A floored quotient reaches a number exactly where the numerator reaches as many denominators.
pub(crate) proof fn lemma_floor(numerator: int, denominator: int, count: int)
    requires
        0 < denominator,
    ensures
        numerator / denominator >= count <==> numerator >= count * denominator,
        (numerator / denominator) * denominator <= numerator < (numerator / denominator + 1)
            * denominator,
{
    lemma_quotient(numerator, denominator);
    let q = numerator / denominator;
    assert(denominator * q == q * denominator) by (nonlinear_arith);
    assert(denominator * (q + 1) == (q + 1) * denominator) by (nonlinear_arith);
    if q >= count {
        assert(q * denominator >= count * denominator) by (nonlinear_arith)
            requires
                q >= count,
                0 < denominator,
        ;
    } else {
        assert((q + 1) * denominator <= count * denominator) by (nonlinear_arith)
            requires
                q + 1 <= count,
                0 < denominator,
        ;
    }
}

/// The most that a vault in debt takes out of a budget is what it owes with the terminal charge, or
/// as much of the base debt as leaves a unit of it for that charge.
pub proof fn law_sized_payment_is_what_the_vault_takes(
    snapshot: Snapshot,
    budget: u128,
    payment: int,
)
    requires
        0 < snapshot.debt,
    ensures
        takes(snapshot, budget as int, snapshot.sized(budget as int)),
        takes(snapshot, budget as int, payment) ==> payment == snapshot.sized(budget as int),
        0 <= snapshot.sized(budget as int) <= budget,
{
}

/// A ratio is the value of the collateral per unit of debt, rounded down, and reaches one exactly
/// where the collateral is worth the debt.
pub proof fn law_ratio_is_the_value_per_debt(snapshot: Snapshot, price: FixedU128)
    ensures
        ({
            let position = DebtCollateral { debt: snapshot.debt, collateral: snapshot.collateral };
            let read = collateralization_ratio_spec(position, price);
            &&& snapshot.debt == 0 ==> read == Ok::<CollateralRatio, ArithmeticError>(
                CollateralRatio::DebtFree,
            )
            &&& snapshot.debt > 0 && !has_ratio(snapshot, price) ==> read == Err::<
                CollateralRatio,
                ArithmeticError,
            >(ArithmeticError::Overflow)
            &&& has_ratio(snapshot, price) ==> {
                &&& read matches Ok(CollateralRatio::Ratio(ratio))
                &&& ratio.inner * snapshot.debt <= worth(snapshot, price) * DIV < (ratio.inner + 1)
                    * snapshot.debt
                &&& ratio.inner == worth(snapshot, price) * DIV / snapshot.debt as int
                &&& ratio.inner >= DIV <==> above_water(snapshot, price)
            }
        }),
{
    let value = worth(snapshot, price);
    let debt = snapshot.debt as int;
    assert(price.inner * snapshot.collateral == snapshot.collateral * price.inner)
        by (nonlinear_arith);
    if debt > 0 {
        lemma_floor(value * DIV, debt, DIV as int);
        lemma_floor(snapshot.collateral * price.inner, DIV as int, debt);
        assert(value * DIV >= DIV * debt <==> value >= debt) by (nonlinear_arith)
            requires
                DIV == 1_000_000_000_000_000_000,
        ;
        assert(0 <= snapshot.collateral * price.inner) by (nonlinear_arith);
        lemma_floor(snapshot.collateral * price.inner, DIV as int, 0);
        assert(0 <= value * DIV);
        lemma_floor(value * DIV, debt, 0);
    }
}

/// A target out of recovery whose collateral is worth its debt is never passed over: it is redeemed
/// for all that it takes of the budget, at face value, or for all of its collateral.
pub proof fn law_worthy_target_is_redeemed_at_face_value(
    snapshot: Snapshot,
    price: FixedU128,
    budget: u128,
    payment: int,
)
    requires
        snapshot.status != VaultStatus::FinalRecovery,
        0 < price.inner,
        has_ratio(snapshot, price),
        snapshot.debt * DIV <= snapshot.collateral * price.inner,
        takes(snapshot, budget as int, payment),
        0 < payment,
        payment * DIV / price.inner as int <= u128::MAX,
    ensures
        priced_step(snapshot, price, budget) matches Step::Redeem { debt, collateral } && {
            &&& debt == payment
            &&& collateral <= snapshot.collateral
            &&& collateral * price.inner <= payment * DIV
            &&& collateral == snapshot.collateral || payment * DIV < (collateral + 1) * price.inner
        },
{
    law_ratio_is_the_value_per_debt(snapshot, price);
    law_sized_payment_is_what_the_vault_takes(snapshot, budget, payment);
    let face = payment * DIV / price.inner as int;
    lemma_floor(payment * DIV, price.inner as int, 0);
    if face > snapshot.collateral {
        assert(snapshot.collateral * price.inner <= face * price.inner) by (nonlinear_arith)
            requires
                snapshot.collateral <= face,
        ;
    }
}

/// A target that is not redeemed is passed over if it is active, and ends the walk if it is dormant,
/// whether it has no debt, has no ratio, or is worth less than its debt. A recovery head ends the
/// walk, and so does a worthy target that takes nothing of the budget or whose payout has no value.
pub proof fn law_other_targets_are_passed_over(
    snapshot: Snapshot,
    price: FixedU128,
    budget: u128,
)
    ensures
        snapshot.status == VaultStatus::FinalRecovery ==> priced_step(snapshot, price, budget)
            == Step::Stop,
        !has_ratio(snapshot, price) || snapshot.collateral * price.inner < snapshot.debt * DIV ==> {
            &&& snapshot.status == VaultStatus::Active ==> priced_step(snapshot, price, budget)
                == Step::Skip
            &&& snapshot.status == VaultStatus::Dormant ==> priced_step(snapshot, price, budget)
                == Step::Stop
        },
        has_ratio(snapshot, price) && snapshot.debt * DIV <= snapshot.collateral * price.inner && (
        takes(snapshot, budget as int, 0) || price.inner == 0 || exists|payment: int| #[trigger]
            takes(snapshot, budget as int, payment) && payment * DIV / price.inner as int
                > u128::MAX) ==> priced_step(snapshot, price, budget) == Step::Stop,
{
    law_ratio_is_the_value_per_debt(snapshot, price);
    if 0 < snapshot.debt {
        law_sized_payment_is_what_the_vault_takes(snapshot, budget, 0);
        assert forall|payment: int| #[trigger] takes(snapshot, budget as int, payment) implies payment
            == snapshot.sized(budget as int) by {
            law_sized_payment_is_what_the_vault_takes(snapshot, budget, payment);
        }
    }
}

} // verus!
