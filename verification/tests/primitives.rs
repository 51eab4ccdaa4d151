use pusd::arithmetic::{FixedU128, Permill};
use pusd::primitives::credit::StableCredit;
use pusd::primitives::error::DispatchError;
use pusd::primitives::list_id::StableListId;
use pusd::primitives::registration::OnBranchLifecycle;
use pusd::primitives::stability_pool::{
    OffsetLegs, StabilityPoolInspect, StabilityPoolOffset, TryDrop,
};
use pusd::primitives::supply_ledger::SupplyLedger;
use pusd::primitives::vault::{DebtCollateral, VaultStatus};
use pusd::primitives::vault_interface::RedemptionStepSnapshot;
use pusd::primitives::yield_routing::OnBranchYield;
use pusd::primitives::{collateralization_ratio, MILLIS_PER_YEAR};
use pusd::storage::StorageMap;

fn snapshot(debt: u64, terminal_interest_charge: u64) -> RedemptionStepSnapshot<u64> {
    RedemptionStepSnapshot {
        status: VaultStatus::Active,
        debt,
        terminal_interest_charge,
        collateral: 1_000,
        redistribution_penalty: Permill::zero(),
        initial_collateralization_ratio: FixedU128::from_rational(120, 100),
        minimum_debt: 200,
    }
}

#[test]
fn a_step_is_paid_in_full_or_leaves_debt_for_the_terminal_charge() {
    let charged = snapshot(500, 1);
    assert_eq!(charged.full_payoff(), 501);
    assert_eq!(charged.size_within(1_000), 501);
    assert_eq!(charged.size_within(501), 501);
    assert_eq!(charged.size_within(500), 499);
    assert_eq!(charged.size_within(100), 100);
    assert_eq!(charged.partial_cap(500), 499);
    assert_eq!(charged.partial_cap(0), 0);
    assert_eq!(charged.position(), DebtCollateral { debt: 500, collateral: 1_000 });

    let settled = snapshot(500, 0);
    assert_eq!(settled.full_payoff(), 500);
    assert_eq!(settled.size_within(499), 499);
    assert_eq!(settled.partial_cap(500), 500);

    assert_eq!(snapshot(u64::MAX, 1).full_payoff(), u64::MAX);
}

#[test]
fn vault_status_names_one_state() {
    assert!(VaultStatus::Active.is_active());
    assert!(!VaultStatus::Active.is_dormant());
    assert!(VaultStatus::Dormant.is_dormant());
    assert!(!VaultStatus::Dormant.is_final_recovery());
    assert!(VaultStatus::FinalRecovery.is_final_recovery());
    assert!(!VaultStatus::FinalRecovery.is_active());
}

#[test]
fn ratio_of_a_debt_free_position_is_undefined() {
    let price = FixedU128::from_rational(5, 4);
    let position = |debt: u128, collateral: u128| DebtCollateral { debt, collateral };
    assert_eq!(collateralization_ratio(&position(0, 100), price), None);
    assert_eq!(
        collateralization_ratio(&position(100, 100), price),
        Some(FixedU128::from_rational(125, 100))
    );
    // 125 / 3, rounded down.
    assert_eq!(
        collateralization_ratio(&position(3, 100), price),
        Some(FixedU128::from_inner(41_666_666_666_666_666_666))
    );
    assert_eq!(collateralization_ratio(&position(1, u128::MAX), price), None);
    assert_eq!(MILLIS_PER_YEAR, 31_557_600_000);
}

#[test]
fn credits_are_carved_and_merged_without_loss() {
    let mut credit = StableCredit { asset: 7, amount: 100 };
    let carved = credit.extract(30);
    assert_eq!((carved.asset(), carved.peek()), (7, 30));
    assert_eq!(credit.peek(), 70);
    assert_eq!(credit.extract(1_000).peek(), 70);
    assert_eq!(credit, StableCredit::zero(7));

    assert_eq!(credit.subsume(carved), Ok(()));
    assert_eq!(credit.peek(), 30);
    let foreign = StableCredit { asset: 8, amount: 5 };
    assert_eq!(credit.subsume(foreign), Err(StableCredit { asset: 8, amount: 5 }));
    assert_eq!(credit.peek(), 30);

    assert_eq!(StableCredit::zero(7).try_drop(), Ok(()));
    assert_eq!(credit.try_drop(), Err(StableCredit { asset: 7, amount: 30 }));
}

#[test]
fn without_a_pool_only_an_empty_offset_succeeds() {
    let mut pool = ();
    assert_eq!(pool.reducible_active(&1u8, &2u8, 100u64), 0);
    assert_eq!(pool.reducible_pending(&1u8, &2u8, 100u64, 3), 0);

    let mut offset = |active: u64, pending: u64, first: u128, second: u128| {
        pool.offset(
            &1u8,
            &2u8,
            OffsetLegs { active, pending },
            OffsetLegs {
                active: StableCredit { asset: 7, amount: first },
                pending: StableCredit { asset: 7, amount: second },
            },
        )
    };
    let refused = Err(DispatchError::Other("no Stability Pool to offset against"));
    assert_eq!(offset(0, 0, 0, 0), Ok(()));
    assert_eq!(offset(1, 0, 0, 0), refused);
    assert_eq!(offset(0, 1, 0, 0), refused);
    assert_eq!(offset(0, 0, 1, 0), refused);
    assert_eq!(offset(0, 0, 0, 1), refused);
}

#[test]
fn without_a_ledger_supply_is_unlimited() {
    let mut ledger = ();
    assert_eq!(SupplyLedger::<u8, u8, u64>::capacity(&ledger, &1, &2), u64::MAX);
    assert_eq!(SupplyLedger::<u8, u8, u64>::level(&ledger, &1, &2), 0);
    assert_eq!(SupplyLedger::<u8, u8, u64>::note_mint(&mut ledger, &1, &2, 5), Ok(()));
    assert_eq!(SupplyLedger::<u8, u8, u64>::note_burn(&mut ledger, &1, &2, 5), 5);
}

#[test]
fn without_a_pool_yield_passes_through() {
    let credit = StableCredit { asset: 7, amount: 30 };
    assert_eq!(().distribute_yield(&1u8, &7u64, credit), StableCredit { asset: 7, amount: 30 });
}

#[test]
fn list_ids_order_by_use_first() {
    assert_eq!(StableListId::default(), StableListId::Rate(0u64, 0u64));
    assert!(StableListId::Rate(9u64, 9u64) < StableListId::FinalRecovery(0, 0));
    assert!(StableListId::FinalRecovery(9u64, 9u64) < StableListId::StabilityPending(0, 0));
}

#[test]
fn rows_are_kept_per_key() {
    let mut rows: StorageMap<u32> = StorageMap::new();
    assert_eq!(rows.get(1), None);
    rows.insert(1, 10);
    rows.insert(2, 20);
    rows.insert(1, 11);
    assert_eq!(rows.get(1), Some(11));
    assert_eq!(rows.peek(2), Some(&20));
    assert_eq!(rows.len(), 2);
    assert_eq!(rows.keys(), vec![1, 2]);

    let copy = rows.duplicate();
    assert_eq!(rows.take(1), Some(11));
    assert_eq!(rows.take(1), None);
    rows.remove(2);
    assert!(!rows.contains_key(2));
    assert_eq!(copy.get(2), Some(20));
}

/// A handler that counts its calls and refuses the market numbered `refused`.
struct Handler {
    refused: u32,
    calls: u32,
}

impl OnBranchLifecycle<u8, u8, u8> for Handler {
    type RegistrationConfig = u32;
    type Error = u32;

    // Only proofs speak of these relations.
    fn registers(
        _: Handler,
        _: u8,
        _: u8,
        _: u32,
        _: u32,
        _: u8,
        _: Result<(), u32>,
        _: Handler,
    ) -> bool {
        unreachable!()
    }

    fn deregisters(_: Handler, _: u8, _: u8, _: u32, _: Result<(), u32>, _: Handler) -> bool {
        unreachable!()
    }

    fn on_registered(
        &mut self,
        _: &u8,
        _: &u8,
        stablecoin_markets: u32,
        config: u32,
        _: &u8,
    ) -> Result<(), u32> {
        self.calls += 1;
        if stablecoin_markets == self.refused {
            Err(config)
        } else {
            Ok(())
        }
    }

    fn on_deregistered(&mut self, _: &u8, _: &u8, remaining: u32) -> Result<(), u32> {
        self.calls += 1;
        if remaining == self.refused {
            Err(remaining)
        } else {
            Ok(())
        }
    }
}

#[test]
fn chained_handlers_stop_at_the_first_error() {
    let mut chain = (Handler { refused: 3, calls: 0 }, Handler { refused: 4, calls: 0 });
    assert_eq!(chain.on_registered(&1, &2, 1, (10, 20), &9), Ok(()));
    assert_eq!((chain.0.calls, chain.1.calls), (1, 1));
    assert_eq!(chain.on_registered(&1, &2, 3, (10, 20), &9), Err(10));
    assert_eq!((chain.0.calls, chain.1.calls), (2, 1));
    assert_eq!(chain.on_registered(&1, &2, 4, (10, 20), &9), Err(20));
    assert_eq!((chain.0.calls, chain.1.calls), (3, 2));

    assert_eq!(chain.on_deregistered(&1, &2, 3), Err(3));
    assert_eq!((chain.0.calls, chain.1.calls), (4, 2));
    assert_eq!(chain.on_deregistered(&1, &2, 0), Ok(()));
    assert_eq!((chain.0.calls, chain.1.calls), (5, 3));
}

/// No handlers let every market come and go.
#[test]
fn no_handlers_accept_every_market() {
    let mut none = ();
    assert_eq!(none.on_registered(&1u8, &2u8, 3, (), &9u8), Ok(()));
    assert_eq!(
        OnBranchLifecycle::<u8, u8, u8>::on_deregistered(&mut none, &1, &2, 0),
        Ok(())
    );
}
