use pusd::arithmetic::{FixedU128, Permill};
use pusd::primitives::credit::{StableCredit, StableId};
use pusd::primitives::debit::{reducible_debit, Preservation, ReducibleBalance};
use pusd::primitives::error::DispatchError;
use pusd::primitives::math::{collateralization_ratio, CollateralRatio};
use pusd::primitives::origin::{EnsureStableOwnerOrRoot, RawOrigin};
use pusd::primitives::recovery_offset::RecoveryOffsetResult;
use pusd::primitives::recovery_pricing;
use pusd::primitives::registration::OnBranchLifecycle;
use pusd::primitives::vault::{DebtCollateral, VaultStatus};
use pusd::primitives::vault_interface::{
    RedemptionSettlement, RedemptionStepSnapshot, VaultInterface,
};
use pusd::redemptions::error::{Error, Failure};
use pusd::redemptions::fees::DynamicFeeCurve;
use pusd::redemptions::lifecycle::TryStateError;
use pusd::redemptions::pallet::{Event, Pallet, Readings, RedeemOrder};
use pusd::redemptions::recovery::price_recovery;
use pusd::redemptions::redemption::WalkContext;
use pusd::redemptions::types::{
    RecoveryOffsetQuote, RecoveryRegime, RedemptionConfig, RedemptionQuote, RedemptionState,
    RedemptionTerms,
};
use std::collections::BTreeMap;

type AccountId = u64;
type Balance = u128;
type Moment = u64;

const HOUR_MS: Moment = 3_600 * 1_000;
const ONE_YEAR_MS: Moment = 31_557_600_000;

/// Collateral assets.
#[derive(Clone, Copy, PartialEq, Eq, PartialOrd, Ord, Debug)]
enum AssetId {
    Native,
    WithId(u32),
}

/// Native collateral.
const DOT: AssetId = AssetId::Native;
/// A collateral other than the native one.
const TOKEN_X: AssetId = AssetId::WithId(1);

/// Unit-scale stablecoin.
const PUSD: StableId = 1_000;
const PUSD_MIN_BALANCE: Balance = 1;
/// A stablecoin of six decimals.
const USDX: StableId = 6_000;
/// Raw units in one coin of six decimals.
const USDX_UNIT: Balance = 1_000_000;
/// A hundredth of a coin.
const USDX_MIN_BALANCE: Balance = USDX_UNIT / 100;

const STABLECOIN_OWNER: AccountId = 1;
const ADMIN: AccountId = 100;
const EMERGENCY_ADMIN: AccountId = 101;
/// Account that redemption fees are routed to.
const FEE_DEST: AccountId = 888;

/// What a frozen branch answers.
const BRANCH_FROZEN: DispatchError = DispatchError::Module { index: 1, error: 7 };
/// What an unknown vault answers.
const VAULT_NOT_FOUND: DispatchError = DispatchError::Module { index: 1, error: 3 };

fn insurance_account(stable: StableId) -> AccountId {
    700_000 + stable
}

#[derive(Clone, Copy, Debug)]
struct BranchConfig {
    minimum_collateralization_ratio: FixedU128,
    initial_collateralization_ratio: FixedU128,
    minimum_debt: Balance,
    upfront_fee_period: Moment,
    redistribution_penalty: Permill,
}

fn default_branch_config() -> BranchConfig {
    BranchConfig {
        minimum_collateralization_ratio: rate_pct(110, 100),
        initial_collateralization_ratio: rate_pct(120, 100),
        minimum_debt: 200,
        upfront_fee_period: 7 * 24 * HOUR_MS,
        redistribution_penalty: Permill::from_percent(5),
    }
}

fn usdx_branch_config() -> BranchConfig {
    BranchConfig { minimum_debt: 200 * USDX_UNIT, ..default_branch_config() }
}

fn default_redemption_config() -> RedemptionConfig<Balance> {
    RedemptionConfig {
        minimum_redemption_amount: 100,
        dynamic_fee_decay_period: 6 * HOUR_MS,
        dynamic_fee_floor: FixedU128::zero(),
        dynamic_fee_ceiling: FixedU128::one(),
        base_fee: Permill::from_parts(5_000),
        fee_ceiling: Permill::one(),
        dynamic_fee_increase_divisor: FixedU128::from_rational(2, 1),
        final_recovery_bonus_buffer: Permill::from_percent(1),
    }
}

fn rate_pct(num: u128, denom: u128) -> FixedU128 {
    FixedU128::from_rational(num, denom)
}

fn ratio(debt: Balance, collateral: Balance, price: FixedU128) -> FixedU128 {
    match collateralization_ratio(&DebtCollateral { debt, collateral }, price) {
        Ok(CollateralRatio::Ratio(ratio)) => ratio,
        _ => panic!("fixture must carry debt with a finite ratio"),
    }
}

/// One vault. Interest runs on the principal; `remainder` is the part of a unit not charged yet.
#[derive(Clone, Debug)]
struct Vault {
    status: VaultStatus,
    collateral: Balance,
    principal: Balance,
    interest: Balance,
    remainder: u128,
    rate: FixedU128,
    opened: u64,
    last_interest_time: Moment,
}

const INTEREST_SCALE: u128 = 1_000_000_000_000_000_000 * (ONE_YEAR_MS as u128);

impl Vault {
    fn debt(&self) -> Balance {
        self.principal + self.interest
    }

    fn touched(&self, now: Moment) -> Vault {
        let mut vault = self.clone();
        let elapsed = u128::from(now - vault.last_interest_time);
        let due = vault.remainder + vault.principal * vault.rate.into_inner() * elapsed;
        vault.interest += due / INTEREST_SCALE;
        vault.remainder = due % INTEREST_SCALE;
        vault.last_interest_time = now;
        vault
    }

    fn terminal_charge(&self) -> Balance {
        if self.remainder > 0 {
            1
        } else {
            0
        }
    }
}

#[derive(Clone, Debug)]
struct Branch {
    config: BranchConfig,
    vaults: BTreeMap<AccountId, Vault>,
    recovery_queue: Vec<AccountId>,
    dormant_redemption_target: Option<AccountId>,
    frozen: bool,
}

/// A vault engine with one branch per market.
#[derive(Clone, Debug)]
struct Vaults {
    branches: BTreeMap<(AssetId, StableId), Branch>,
    free_collateral: BTreeMap<(AssetId, AccountId), Balance>,
    burned: BTreeMap<StableId, Balance>,
    closed: Vec<(AccountId, Balance)>,
    opened: u64,
    now: Moment,
}

impl Vaults {
    fn branch(&self, collateral: AssetId, stable: StableId) -> Option<&Branch> {
        self.branches.get(&(collateral, stable))
    }

    /// Owners of active vaults, lowest rate first.
    fn rate_index(&self, collateral: AssetId, stable: StableId) -> Vec<AccountId> {
        let mut index: Vec<(FixedU128, u64, AccountId)> = match self.branch(collateral, stable) {
            Some(branch) => branch
                .vaults
                .iter()
                .filter(|(_, vault)| vault.status.is_active())
                .map(|(owner, vault)| (vault.rate, vault.opened, *owner))
                .collect(),
            None => Vec::new(),
        };
        index.sort();
        index.into_iter().map(|(_, _, owner)| owner).collect()
    }

    fn priority_target(
        &self,
        collateral: AssetId,
        stable: StableId,
    ) -> Option<(AccountId, VaultStatus)> {
        let branch = self.branch(collateral, stable)?;
        match branch.recovery_queue.first() {
            Some(owner) => Some((*owner, VaultStatus::FinalRecovery)),
            None => branch.dormant_redemption_target.map(|owner| (owner, VaultStatus::Dormant)),
        }
    }
}

impl VaultInterface for Vaults {
    type CollateralId = AssetId;
    type AccountId = AccountId;

    // Only proofs speak of this relation.
    fn settles(
        _: Vaults,
        _: AssetId,
        _: StableId,
        _: AccountId,
        _: AccountId,
        _: RedemptionSettlement<StableCredit, u128>,
        _: Result<(), DispatchError>,
        _: Vaults,
    ) -> bool {
        unreachable!()
    }

    fn next_redemption_target(
        &self,
        collateral_id: AssetId,
        stable_id: StableId,
        after: Option<AccountId>,
    ) -> Option<(AccountId, VaultStatus)> {
        if let Some(target) = self.priority_target(collateral_id, stable_id) {
            return Some(target);
        }
        let index = self.rate_index(collateral_id, stable_id);
        let place = match after {
            Some(cursor) => index.iter().position(|owner| *owner == cursor).map_or(0, |at| at + 1),
            None => 0,
        };
        index.get(place).map(|owner| (*owner, VaultStatus::Active))
    }

    fn redemption_quote_targets(
        &self,
        collateral_id: AssetId,
        stable_id: StableId,
        nth: u32,
    ) -> Option<AccountId> {
        let mut targets: Vec<AccountId> = Vec::new();
        if let Some((owner, _)) = self.priority_target(collateral_id, stable_id) {
            targets.push(owner);
        }
        targets.extend(self.rate_index(collateral_id, stable_id));
        targets.get(nth as usize).copied()
    }

    fn project_redemption_snapshot(
        &self,
        collateral_id: AssetId,
        stable_id: StableId,
        owner: AccountId,
    ) -> Result<RedemptionStepSnapshot<u128>, DispatchError> {
        let branch = self.branch(collateral_id, stable_id).ok_or(VAULT_NOT_FOUND)?;
        if branch.frozen {
            return Err(BRANCH_FROZEN);
        }
        let vault = branch.vaults.get(&owner).ok_or(VAULT_NOT_FOUND)?.touched(self.now);
        Ok(RedemptionStepSnapshot {
            status: vault.status,
            debt: vault.debt(),
            terminal_interest_charge: vault.terminal_charge(),
            collateral: vault.collateral,
            redistribution_penalty: branch.config.redistribution_penalty,
            initial_collateralization_ratio: branch.config.initial_collateralization_ratio,
            minimum_debt: branch.config.minimum_debt,
        })
    }

    fn redeem_step(
        &mut self,
        collateral_id: AssetId,
        stable_id: StableId,
        owner: AccountId,
        recipient: AccountId,
        settlement: RedemptionSettlement<StableCredit, u128>,
    ) -> Result<(), DispatchError> {
        let snapshot = self.project_redemption_snapshot(collateral_id, stable_id, owner)?;
        let now = self.now;
        let branch = self.branches.get_mut(&(collateral_id, stable_id)).ok_or(VAULT_NOT_FOUND)?;
        let minimum_debt = branch.config.minimum_debt;
        let mut vault = branch.vaults.get(&owner).ok_or(VAULT_NOT_FOUND)?.touched(now);

        let payment = settlement.debt_payment.peek();
        let full = payment == snapshot.full_payoff();
        if settlement.debt_payment.asset() != stable_id
            || settlement.collateral_to_recipient > vault.collateral
            || !full && payment > snapshot.partial_cap(snapshot.debt)
        {
            return Err(DispatchError::Corruption);
        }

        if full {
            vault.principal = 0;
            vault.interest = 0;
            vault.remainder = 0;
        } else {
            let paid_interest = payment.min(vault.interest);
            vault.interest -= paid_interest;
            vault.principal -= payment - paid_interest;
        }
        vault.collateral -= settlement.collateral_to_recipient;
        *self.burned.entry(stable_id).or_default() += payment;
        *self.free_collateral.entry((collateral_id, recipient)).or_default() +=
            settlement.collateral_to_recipient;

        if vault.debt() == 0 {
            branch.recovery_queue.retain(|queued| *queued != owner);
            if branch.dormant_redemption_target == Some(owner) {
                branch.dormant_redemption_target = None;
            }
            vault.status = VaultStatus::Dormant;
        } else if vault.status.is_active() && vault.debt() < minimum_debt {
            vault.status = VaultStatus::Dormant;
            branch.dormant_redemption_target = Some(owner);
        }
        if vault.debt() == 0 && vault.collateral == 0 {
            branch.vaults.remove(&owner);
            self.closed.push((owner, 0));
        } else {
            branch.vaults.insert(owner, vault);
        }
        Ok(())
    }

    fn stablecoin_debt(&self, stable_id: StableId) -> u128 {
        self.branches
            .iter()
            .filter(|((_, stable), _)| *stable == stable_id)
            .flat_map(|(_, branch)| branch.vaults.values())
            .map(|vault| vault.touched(self.now).debt())
            .sum()
    }
}

/// A settlement as its event reports it.
#[derive(Clone, Copy, PartialEq, Debug)]
struct Settlement {
    collateral_id: AssetId,
    stable_id: StableId,
    redeemer: AccountId,
    recipient: AccountId,
    stable_burned: Balance,
    insurance_cover: Balance,
    fee: Balance,
    collateral_out: Balance,
    /// Number of steps of an ordinary settlement.
    ordinary_steps: Option<u32>,
}

impl Settlement {
    fn from_event(event: &Event<AssetId, AccountId>) -> Option<Settlement> {
        match *event {
            Event::OrdinaryRedemptionExecuted {
                collateral_id,
                stable_id,
                redeemer,
                recipient,
                stable_burned,
                collateral_out,
                fee,
                steps,
            } => Some(Settlement {
                collateral_id,
                stable_id,
                redeemer,
                recipient,
                stable_burned,
                insurance_cover: 0,
                fee,
                collateral_out,
                ordinary_steps: Some(steps),
            }),
            Event::RecoveryRedemptionExecuted {
                collateral_id,
                stable_id,
                redeemer,
                recipient,
                stable_burned,
                insurance_cover,
                collateral_out,
                ..
            } => Some(Settlement {
                collateral_id,
                stable_id,
                redeemer,
                recipient,
                stable_burned,
                insurance_cover,
                fee: 0,
                collateral_out,
                ordinary_steps: None,
            }),
            _ => None,
        }
    }

    fn figures(&self) -> (Balance, Balance, Balance) {
        (self.stable_burned, self.fee, self.collateral_out)
    }
}

/// Ledgers, oracle and clock around the redemption logic.
#[derive(Debug)]
struct World {
    pallet: Pallet<AssetId, AccountId>,
    vaults: Vaults,
    balances: BTreeMap<(StableId, AccountId), Balance>,
    issued: BTreeMap<StableId, Balance>,
    prices: BTreeMap<AssetId, FixedU128>,
    oracle_available: bool,
}

impl Clone for World {
    fn clone(&self) -> World {
        World {
            pallet: Pallet {
                configs: self.pallet.configs.clone(),
                states: self.pallet.states.clone(),
                events: self.pallet.events.clone(),
                max_redemption_steps: self.pallet.max_redemption_steps,
            },
            vaults: self.vaults.clone(),
            balances: self.balances.clone(),
            issued: self.issued.clone(),
            prices: self.prices.clone(),
            oracle_available: self.oracle_available,
        }
    }
}

/// Runs `test` on a fresh world and then checks the stored rows.
fn build_and_execute(test: impl FnOnce(&mut World)) {
    let mut world = World {
        pallet: Pallet::new(20),
        vaults: Vaults {
            branches: BTreeMap::new(),
            free_collateral: (1..=10).map(|who| ((DOT, who), 1_000_000_000_000)).collect(),
            burned: BTreeMap::new(),
            closed: Vec::new(),
            opened: 0,
            now: 1_000,
        },
        balances: BTreeMap::new(),
        issued: BTreeMap::new(),
        prices: BTreeMap::new(),
        oracle_available: true,
    };
    test(&mut world);
    assert_eq!(world.pallet.do_try_state(world.now()), Ok(()), "post-test invariants hold");
}

fn min_balance(stable: StableId) -> Balance {
    if stable == USDX {
        USDX_MIN_BALANCE
    } else {
        PUSD_MIN_BALANCE
    }
}

impl World {
    fn now(&self) -> Moment {
        self.vaults.now
    }

    fn advance_time(&mut self, ms: Moment) {
        self.vaults.now += ms;
    }

    fn set_price(&mut self, collateral: AssetId, price: FixedU128) {
        self.prices.insert(collateral, price);
    }

    fn price(&self, collateral: AssetId) -> Result<FixedU128, DispatchError> {
        if !self.oracle_available {
            return Err(DispatchError::Unavailable);
        }
        self.prices.get(&collateral).copied().ok_or(DispatchError::Unavailable)
    }

    fn balance(&self, stable: StableId, who: AccountId) -> Balance {
        self.balances.get(&(stable, who)).copied().unwrap_or_default()
    }

    fn total_supply(&self, stable: StableId) -> Balance {
        self.issued.get(&stable).copied().unwrap_or_default()
            - self.vaults.burned.get(&stable).copied().unwrap_or_default()
    }

    fn mint_stable(&mut self, stable: StableId, who: AccountId, amount: Balance) {
        *self.balances.entry((stable, who)).or_default() += amount;
        *self.issued.entry(stable).or_default() += amount;
    }

    fn payable(&self, stable: StableId, who: AccountId) -> ReducibleBalance<Balance> {
        let balance = self.balance(stable, who);
        ReducibleBalance {
            preserved: balance.saturating_sub(min_balance(stable)),
            expendable: balance,
        }
    }

    fn fund(&self, stable: StableId) -> ReducibleBalance<Balance> {
        self.payable(stable, insurance_account(stable))
    }

    fn withdraw(
        &mut self,
        stable: StableId,
        who: AccountId,
        amount: Balance,
        preservation: Preservation,
    ) -> StableCredit {
        let left = self.balance(stable, who).checked_sub(amount).expect("withdrawal is funded");
        match preservation {
            Preservation::Preserve => assert!(left >= min_balance(stable), "account is kept"),
            Preservation::Expendable => {
                assert!(left == 0 || left >= min_balance(stable), "no dust is folded")
            }
        }
        self.balances.insert((stable, who), left);
        StableCredit { asset: stable, amount }
    }

    fn resolve(&mut self, who: AccountId, credit: StableCredit) {
        *self.balances.entry((credit.asset(), who)).or_default() += credit.peek();
    }

    fn free_collateral(&self, collateral: AssetId, who: AccountId) -> Balance {
        self.vaults.free_collateral.get(&(collateral, who)).copied().unwrap_or_default()
    }

    fn config(&self, stable: StableId) -> Option<RedemptionConfig<Balance>> {
        self.pallet.configs.get(stable)
    }

    fn dynamic_fee(&self, stable: StableId) -> FixedU128 {
        self.pallet.redemption_state(stable).dynamic_fee
    }

    /// Overwrites the fee state as of now, so that the next redemption observes exactly `rate`.
    fn set_dynamic_fee(&mut self, stable: StableId, rate: FixedU128) {
        let last_fee_operation = self.now();
        self.pallet
            .states
            .insert(stable, RedemptionState { dynamic_fee: rate, last_fee_operation });
    }

    /// Creates a market, with rollback where the handler refuses it.
    fn create_branch(
        &mut self,
        collateral: AssetId,
        stable: StableId,
        config: BranchConfig,
        redemption_config: Option<RedemptionConfig<Balance>>,
    ) -> Result<(), Failure> {
        let markets = self.markets(stable) + 1;
        self.pallet.on_registered(&collateral, &stable, markets, redemption_config, &ADMIN)?;
        self.vaults.branches.insert(
            (collateral, stable),
            Branch {
                config,
                vaults: BTreeMap::new(),
                recovery_queue: Vec::new(),
                dormant_redemption_target: None,
                frozen: false,
            },
        );
        Ok(())
    }

    fn remove_branch(&mut self, collateral: AssetId, stable: StableId) -> Result<(), Failure> {
        let remaining = self.markets(stable) - 1;
        self.pallet.on_deregistered(&collateral, &stable, remaining)?;
        self.vaults.branches.remove(&(collateral, stable));
        Ok(())
    }

    fn markets(&self, stable: StableId) -> u32 {
        self.vaults.branches.keys().filter(|(_, coin)| *coin == stable).count() as u32
    }

    /// Registers a market at price 1.25.
    fn register_branch(&mut self, collateral: AssetId, stable: StableId, config: BranchConfig) {
        self.set_price(collateral, rate_pct(5, 4));
        let redemption_config = match self.config(stable) {
            Some(_) => None,
            None => Some(default_redemption_config()),
        };
        self.create_branch(collateral, stable, config, redemption_config).expect("market created");
    }

    /// Opens a vault that owes `debt` plus the upfront fee.
    fn open(
        &mut self,
        who: AccountId,
        collateral: AssetId,
        stable: StableId,
        collateral_amount: Balance,
        debt: Balance,
        rate: FixedU128,
    ) {
        let now = self.now();
        *self.vaults.free_collateral.entry((collateral, who)).or_default() -= collateral_amount;
        self.mint_stable(stable, who, debt);
        self.vaults.opened += 1;
        let opened = self.vaults.opened;
        let branch = self.vaults.branches.get_mut(&(collateral, stable)).expect("market");
        let due = debt * rate.into_inner() * u128::from(branch.config.upfront_fee_period);
        let upfront_fee = due / INTEREST_SCALE + if due % INTEREST_SCALE > 0 { 1 } else { 0 };
        branch.vaults.insert(
            who,
            Vault {
                status: VaultStatus::Active,
                collateral: collateral_amount,
                principal: debt,
                interest: upfront_fee,
                remainder: 0,
                rate,
                opened,
                last_interest_time: now,
            },
        );
    }

    fn branch_mut(&mut self, collateral: AssetId, stable: StableId) -> &mut Branch {
        self.vaults.branches.get_mut(&(collateral, stable)).expect("market")
    }

    fn enter_final_recovery(&mut self, collateral: AssetId, stable: StableId, owner: AccountId) {
        let branch = self.branch_mut(collateral, stable);
        branch.vaults.get_mut(&owner).expect("vault").status = VaultStatus::FinalRecovery;
        branch.recovery_queue.push(owner);
    }

    fn exit_final_recovery(&mut self, collateral: AssetId, stable: StableId, owner: AccountId) {
        let price = self.price(collateral).expect("price");
        let branch = self.branch_mut(collateral, stable);
        let vault = branch.vaults.get_mut(&owner).expect("vault");
        assert!(
            ratio(vault.debt(), vault.collateral, price)
                >= branch.config.minimum_collateralization_ratio
        );
        vault.status = VaultStatus::Active;
        branch.recovery_queue.retain(|queued| *queued != owner);
    }

    /// Removes a vault and shares its debt and collateral out to the only other one.
    fn liquidate_redistribute_all(&mut self, owner: AccountId) {
        let now = self.now();
        let branch = self.branch_mut(DOT, PUSD);
        let gone = branch.vaults.remove(&owner).expect("vault").touched(now);
        if branch.dormant_redemption_target == Some(owner) {
            branch.dormant_redemption_target = None;
        }
        assert_eq!(branch.vaults.len(), 1);
        for vault in branch.vaults.values_mut() {
            vault.principal += gone.debt();
            vault.collateral += gone.collateral;
        }
    }

    fn vault_status(&self, collateral: AssetId, stable: StableId, who: AccountId) -> Option<VaultStatus> {
        self.vaults.branch(collateral, stable)?.vaults.get(&who).map(|vault| vault.status)
    }

    fn vault_debt(&self, collateral: AssetId, stable: StableId, who: AccountId) -> Balance {
        self.vaults
            .branch(collateral, stable)
            .and_then(|branch| branch.vaults.get(&who))
            .map_or(0, |vault| vault.debt())
    }

    /// Collateral held against the owner's vaults.
    fn held(&self, collateral: AssetId, who: AccountId) -> Balance {
        self.vaults
            .branches
            .iter()
            .filter(|((asset, _), _)| *asset == collateral)
            .filter_map(|(_, branch)| branch.vaults.get(&who))
            .map(|vault| vault.collateral)
            .sum()
    }

    fn stablecoin_debt(&self, stable: StableId) -> Balance {
        self.vaults.stablecoin_debt(stable)
    }

    fn branch_outstanding(&self, collateral: AssetId, stable: StableId) -> Balance {
        let now = self.now();
        self.vaults
            .branch(collateral, stable)
            .map_or(0, |branch| branch.vaults.values().map(|v| v.touched(now).debt()).sum())
    }

    fn branch_tcr(&self, collateral: AssetId, stable: StableId) -> FixedU128 {
        let branch = self.vaults.branch(collateral, stable).expect("market");
        let held: Balance = branch.vaults.values().map(|vault| vault.collateral).sum();
        let price = self.price(collateral).expect("price");
        ratio(self.branch_outstanding(collateral, stable), held, price)
    }

    fn vault_cr(&self, who: AccountId, price: FixedU128) -> FixedU128 {
        ratio(self.vault_debt(DOT, PUSD, who), self.held(DOT, who), price)
    }

    fn projected_full_debt(&self, who: AccountId) -> Balance {
        self.vaults.project_redemption_snapshot(DOT, PUSD, who).expect("snapshot").debt
    }

    /// Stable amount that buys exactly `debt` of PUSD now, fee included.
    fn spend_for_debt(&self, debt: Balance) -> Balance {
        let config = self.config(PUSD).expect("PUSD is registered");
        let decayed = self.pallet.redemption_state(PUSD).dynamic_fee_at(self.now(), &config);
        let curve = DynamicFeeCurve::try_new(decayed, self.stablecoin_debt(PUSD), &config)
            .expect("test debt fits u128");
        debt + curve.fee(debt)
    }

    fn preview_redeem(
        &self,
        collateral: AssetId,
        stable: StableId,
        budget: Balance,
        max_steps: u32,
    ) -> Result<RedemptionQuote<Balance>, Failure> {
        self.pallet.preview_redeem(
            &self.vaults,
            collateral,
            stable,
            budget,
            max_steps,
            self.price(collateral),
            self.now(),
            self.fund(stable),
        )
    }

    fn preview(&self, budget: Balance, max_steps: u32) -> Result<RedemptionQuote<Balance>, Failure> {
        self.preview_redeem(DOT, PUSD, budget, max_steps)
    }

    /// Redeems, checks what the settlement moved, and hands back the steps. A failure undoes what
    /// was done before it.
    fn redeem(
        &mut self,
        who: AccountId,
        collateral: AssetId,
        stable: StableId,
        max_stable_to_spend: Balance,
        min_collateral_out: Balance,
        recipient: AccountId,
        max_steps: u32,
    ) -> Result<u32, Failure> {
        let before = self.clone();
        let quote = self
            .preview_redeem(collateral, stable, max_stable_to_spend, max_steps)
            .ok()
            .filter(|quote| self.payable(stable, who).preserved >= quote.stable_in());
        let terms = RedemptionTerms { max_stable_to_spend, min_collateral_out };
        match self.try_redeem(who, collateral, stable, terms, recipient, max_steps) {
            Ok(steps) => {
                self.assert_settled(&before, who, collateral, stable, recipient, quote);
                Ok(steps)
            }
            Err(failure) => {
                *self = before;
                Err(failure)
            }
        }
    }

    fn try_redeem(
        &mut self,
        who: AccountId,
        collateral: AssetId,
        stable: StableId,
        terms: RedemptionTerms<Balance>,
        recipient: AccountId,
        max_steps: u32,
    ) -> Result<u32, Failure> {
        let readings = Readings {
            price: self.price(collateral),
            now: self.now(),
            redeemer: self.payable(stable, who),
            fund: self.fund(stable),
        };
        let order = self.pallet.do_redeem(
            &self.vaults,
            collateral,
            stable,
            &terms,
            max_steps,
            &readings,
        )?;
        let context = WalkContext {
            redeemer: who,
            collateral_id: collateral,
            stable_id: stable,
            recipient,
            price: readings.price.expect("a decided redemption has a price"),
        };
        match order {
            RedeemOrder::Recovery(order) => {
                let debt_payment = match order.debit {
                    Some(preservation) => {
                        self.withdraw(stable, who, order.plan.debt(), preservation)
                    }
                    None => StableCredit::zero(stable),
                };
                let decision = order.withdraw_insurance_cover(self.fund(stable));
                let cover = decision.map(|preservation| {
                    let fund = insurance_account(stable);
                    self.withdraw(stable, fund, order.plan.insurance_cover(), preservation)
                });
                self.pallet.settle_recovery(
                    &mut self.vaults,
                    &context,
                    &order,
                    debt_payment,
                    cover,
                )
            }
            RedeemOrder::Ordinary(order) => {
                let payment = self.withdraw(stable, who, order.debit(), Preservation::Preserve);
                let (receipt, fee, change, _) =
                    Pallet::settle_ordinary(&mut self.vaults, &context, &order, payment)?;
                self.resolve(FEE_DEST, fee);
                self.resolve(who, change);
                self.pallet.finalize_ordinary(&context, &order, &receipt)
            }
        }
    }

    fn assert_settled(
        &self,
        before: &World,
        who: AccountId,
        collateral: AssetId,
        stable: StableId,
        recipient: AccountId,
        quote: Option<RedemptionQuote<Balance>>,
    ) {
        let events = &self.pallet.events[before.pallet.events.len()..];
        let settlements: Vec<Settlement> = events.iter().filter_map(Settlement::from_event).collect();
        assert_eq!(settlements.len(), 1, "one redemption settles per call");
        let settled = settlements[0];
        assert_eq!(settled.collateral_id, collateral);
        assert_eq!(settled.stable_id, stable);
        assert_eq!(settled.redeemer, who);
        assert_eq!(settled.recipient, recipient);

        assert_eq!(
            before.balance(stable, who) - self.balance(stable, who),
            settled.stable_burned + settled.fee,
            "the redeemer pays the burned debt plus the fee"
        );
        assert_eq!(
            self.balance(stable, FEE_DEST) - before.balance(stable, FEE_DEST),
            settled.fee,
            "the fee is routed"
        );
        let fund = insurance_account(stable);
        assert_eq!(
            before.balance(stable, fund) - self.balance(stable, fund),
            settled.insurance_cover,
            "the Insurance Fund pays exactly the cover"
        );
        assert_eq!(
            before.total_supply(stable) - self.total_supply(stable),
            settled.stable_burned + settled.insurance_cover,
            "issuance falls by the burn and the cover, and by nothing else"
        );
        assert_eq!(
            self.free_collateral(collateral, recipient)
                - before.free_collateral(collateral, recipient),
            settled.collateral_out,
            "the recipient receives exactly the collateral out"
        );

        let state_before = before.pallet.redemption_state(stable);
        match settled.ordinary_steps {
            Some(_) => {
                let config = self.config(stable).expect("a redeemed coin has a policy");
                let state = self.pallet.redemption_state(stable);
                assert!(state.dynamic_fee >= config.dynamic_fee_floor, "fee below the floor");
                assert!(state.dynamic_fee <= config.dynamic_fee_ceiling, "fee above the ceiling");
                assert_eq!(state.last_fee_operation, self.now(), "fee state not stamped now");
                let reported = events.iter().find_map(|event| match *event {
                    Event::RedemptionDynamicFeeUpdated {
                        old_dynamic_fee, new_dynamic_fee, ..
                    } => Some((old_dynamic_fee, new_dynamic_fee)),
                    _ => None,
                });
                match reported {
                    Some((old, new)) => {
                        assert_eq!(old, state_before.dynamic_fee, "reported old dynamic fee");
                        assert_eq!(new, state.dynamic_fee, "reported new dynamic fee");
                        assert_ne!(old, new, "a fee move reported where there was none");
                    }
                    None => {
                        assert_eq!(state.dynamic_fee, state_before.dynamic_fee, "unreported move")
                    }
                }
            }
            None => assert_eq!(
                self.pallet.redemption_state(stable),
                state_before,
                "a recovery settlement leaves the ordinary accelerator alone"
            ),
        }

        if let Some(quote) = quote {
            assert_eq!(settled.stable_burned, quote.debt_cancelled, "execution vs quoted debt");
            assert_eq!(settled.fee, quote.fee, "execution vs quoted fee");
            assert_eq!(settled.collateral_out, quote.collateral_out, "execution vs quote");
            if let Some(steps) = settled.ordinary_steps {
                assert_eq!(steps, quote.steps, "execution vs quoted steps");
            }
        }
    }

    fn last_settlement(&self) -> Settlement {
        self.pallet.events.iter().rev().find_map(Settlement::from_event).expect("settlement")
    }

    fn last_recovery_regime(&self) -> Option<RecoveryRegime> {
        self.pallet.events.iter().rev().find_map(|event| match *event {
            Event::RecoveryRedemptionExecuted { regime, .. } => Some(regime),
            _ => None,
        })
    }

    /// Opens a vault at a healthy price and parks it in `FinalRecovery` at `recovery_price`.
    fn setup_final_recovery(
        &mut self,
        who: AccountId,
        collateral: Balance,
        debt: Balance,
        recovery_price: FixedU128,
    ) {
        self.set_price(DOT, rate_pct(5, 4));
        self.open(who, DOT, PUSD, collateral, debt, rate_pct(5, 100));
        self.set_price(DOT, recovery_price);
        self.enter_final_recovery(DOT, PUSD, who);
    }

    fn final_recovery_queue(&self) -> Vec<AccountId> {
        self.vaults.branch(DOT, PUSD).expect("market").recovery_queue.clone()
    }

    fn preview_offset(&self, max_debt: Balance) -> Result<RecoveryOffsetQuote<Balance>, Failure> {
        self.pallet.preview_recovery_offset(
            &self.vaults,
            DOT,
            PUSD,
            self.price(DOT),
            self.fund(PUSD),
            max_debt,
        )
    }

    /// Executes an offset that `payer` funds up to `max_debt` and is refunded the change of.
    fn execute_offset(
        &mut self,
        payer: AccountId,
        recipient: AccountId,
        max_debt: Balance,
    ) -> Result<RecoveryOffsetResult<Balance>, Failure> {
        let before = self.clone();
        let (amount, preservation) = reducible_debit(self.payable(PUSD, payer), max_debt);
        let payment = if amount == 0 {
            StableCredit::zero(PUSD)
        } else {
            self.withdraw(PUSD, payer, amount, preservation)
        };
        let price = self.price(DOT);
        let fund = self.fund(PUSD);
        match self.pallet.execute_recovery_offset(
            &mut self.vaults,
            DOT,
            price,
            fund,
            payment,
            recipient,
        ) {
            Ok((result, change)) => {
                self.resolve(payer, change);
                Ok(result)
            }
            Err(failure) => {
                *self = before;
                Err(failure)
            }
        }
    }

    /// Replaces a policy as the coin's authority decides.
    fn set_redemption_config(
        &mut self,
        origin: RawOrigin<AccountId>,
        stable: StableId,
        config: RedemptionConfig<Balance>,
    ) -> Result<(), Failure> {
        let authorized =
            match EnsureStableOwnerOrRoot::try_origin(origin, Some(origin), Some(STABLECOIN_OWNER)) {
                Ok(_) => Ok(()),
                Err(_) => Err(DispatchError::BadOrigin),
            };
        self.pallet.set_redemption_config(authorized, stable, config)
    }
}

/// Fee curve of the default policy that starts at `decayed` on stablecoin debt of `debt`.
fn fee_curve(decayed: FixedU128, debt: Balance) -> DynamicFeeCurve {
    DynamicFeeCurve::try_new(decayed, debt, &default_redemption_config())
        .expect("test debt fits u128")
}

fn refused<T>(error: Error) -> Result<T, Failure> {
    Err(Failure::Pallet(error))
}

#[test]
fn branch_registration_seeds_redemption_config() {
    build_and_execute(|world| {
        assert!(world.config(PUSD).is_none());
        world.register_branch(DOT, PUSD, default_branch_config());
        let config = world.config(PUSD).expect("seeded on registration");
        assert_eq!(config.minimum_redemption_amount, 100);
    });
}

// Config and fee state are kept per stablecoin: a second market on the coin reuses the live row
// rather than reseeding it, and only the last market to leave clears it.
#[test]
fn redemption_config_outlives_all_but_the_last_market_on_the_coin() {
    build_and_execute(|world| {
        world.register_branch(DOT, PUSD, default_branch_config());
        world.set_dynamic_fee(PUSD, rate_pct(3, 100));

        world.set_price(TOKEN_X, FixedU128::one());
        assert_eq!(world.create_branch(TOKEN_X, PUSD, default_branch_config(), None), Ok(()));

        // The second market joins the coin's existing fee state untouched.
        assert_eq!(world.dynamic_fee(PUSD), rate_pct(3, 100));
        assert!(world.pallet.configs.contains_key(PUSD));

        assert_eq!(world.remove_branch(TOKEN_X, PUSD), Ok(()));
        assert!(world.pallet.configs.contains_key(PUSD));
        assert_eq!(world.dynamic_fee(PUSD), rate_pct(3, 100));

        // The last market out clears both rows.
        assert_eq!(world.remove_branch(DOT, PUSD), Ok(()));
        assert!(world.config(PUSD).is_none());
        assert_eq!(world.dynamic_fee(PUSD), FixedU128::zero());
    });
}

#[test]
fn branch_registration_rejects_invalid_redemption_config() {
    build_and_execute(|world| {
        let mut bad = default_redemption_config();
        bad.minimum_redemption_amount = 0;

        world.set_price(DOT, rate_pct(5, 4));
        assert_eq!(
            world.create_branch(DOT, PUSD, default_branch_config(), Some(bad)),
            refused(Error::InvalidRedemptionConfig)
        );
        assert!(world.config(PUSD).is_none());
    });
}

// The redemption policy is per stablecoin, so exactly one market registers it: the coin's first.
#[test]
fn only_the_first_market_on_a_coin_carries_the_redemption_config() {
    build_and_execute(|world| {
        world.set_price(DOT, rate_pct(5, 4));
        assert_eq!(
            world.create_branch(DOT, PUSD, default_branch_config(), None),
            refused(Error::RedemptionConfigRequired)
        );

        world.register_branch(DOT, PUSD, default_branch_config());

        world.set_price(TOKEN_X, FixedU128::one());
        assert_eq!(
            world.create_branch(
                TOKEN_X,
                PUSD,
                default_branch_config(),
                Some(default_redemption_config()),
            ),
            refused(Error::RedemptionConfigNotExpected)
        );
    });
}

#[test]
fn redeem_and_preview_report_below_minimum_amount() {
    build_and_execute(|world| {
        world.register_branch(DOT, PUSD, default_branch_config());
        world.open(1, DOT, PUSD, 1_000, 500, rate_pct(5, 100));
        world.mint_stable(PUSD, 3, 1_000);
        assert_eq!(
            world.redeem(3, DOT, PUSD, 99, 0, 4, 0),
            refused(Error::BelowMinimumRedemptionAmount)
        );
        assert_eq!(world.preview(99, 0), refused(Error::BelowMinimumRedemptionAmount));
    });
}

#[test]
fn redeem_and_preview_report_unregistered_stablecoin() {
    build_and_execute(|world| {
        world.mint_stable(PUSD, 3, 1_000);
        assert_eq!(
            world.redeem(3, DOT, PUSD, 200, 0, 4, 0),
            refused(Error::StablecoinNotRegistered)
        );
        assert_eq!(world.preview(200, 0), refused(Error::StablecoinNotRegistered));
    });
}

#[test]
fn redeem_frozen_branch_reverts() {
    build_and_execute(|world| {
        world.register_branch(DOT, PUSD, default_branch_config());
        world.open(1, DOT, PUSD, 1_000, 500, rate_pct(5, 100));
        world.mint_stable(PUSD, 3, 1_000);
        world.branch_mut(DOT, PUSD).frozen = true;
        // Frozen-mode enforcement lives vault-side: the first step rejects the frozen branch and
        // the whole redemption rolls back.
        assert_eq!(
            world.redeem(3, DOT, PUSD, 200, 0, 4, 0),
            Err(Failure::Dispatch(BRANCH_FROZEN))
        );
        assert_eq!(world.balance(PUSD, 3), 1_000);
    });
}

#[test]
fn redeem_and_preview_report_no_vault() {
    build_and_execute(|world| {
        world.register_branch(DOT, PUSD, default_branch_config());
        world.mint_stable(PUSD, 3, 1_000);
        assert_eq!(world.redeem(3, DOT, PUSD, 200, 0, 4, 0), refused(Error::NoRedeemableVault));
        assert_eq!(world.preview(200, 0), refused(Error::NoRedeemableVault));
    });
}

#[test]
fn ordinary_redemption_hits_lowest_rate_vault_and_settles_every_dimension() {
    build_and_execute(|world| {
        world.register_branch(DOT, PUSD, default_branch_config());
        world.open(1, DOT, PUSD, 1_000, 500, rate_pct(1, 100));
        world.open(2, DOT, PUSD, 1_000, 500, rate_pct(2, 100));
        world.mint_stable(PUSD, 3, 1_000_000);
        let v1_before = world.vault_debt(DOT, PUSD, 1);
        let v1_held_before = world.held(DOT, 1);
        let v2_before = world.vault_debt(DOT, PUSD, 2);
        let v2_held_before = world.held(DOT, 2);

        // 213 includes the fee and buys 201 of the 1_002 debt, a share of 20.06%. The dynamic fee
        // rises by half of that, to 10.03%; the redemption pays the 5.01% mean and the 0.5% base,
        // `ceil(201 * 0.055150) = 12`, and gets `floor(201 / 1.25) = 160`.
        assert!(world.redeem(3, DOT, PUSD, 213, 0, 4, 0).is_ok());

        // The lowest-rate vault absorbs the whole fill; the higher-rate vault is untouched.
        assert_eq!(v1_before - world.vault_debt(DOT, PUSD, 1), 201);
        assert_eq!(v1_held_before - world.held(DOT, 1), 160);
        assert_eq!(world.vault_debt(DOT, PUSD, 2), v2_before);
        assert_eq!(world.held(DOT, 2), v2_held_before);
        let settled = world.last_settlement();
        assert_eq!(settled.figures(), (201, 12, 160));
        assert_eq!(settled.ordinary_steps, Some(1));
    });
}

#[test]
fn caller_max_steps_caps_the_loop() {
    build_and_execute(|world| {
        world.register_branch(DOT, PUSD, default_branch_config());
        world.open(1, DOT, PUSD, 1_000, 500, rate_pct(1, 100));
        world.open(2, DOT, PUSD, 1_000, 500, rate_pct(2, 100));
        world.mint_stable(PUSD, 3, 1_000_000);
        let v2_before = world.vault_debt(DOT, PUSD, 2);

        assert!(world.redeem(3, DOT, PUSD, 100_000, 0, 4, 1).is_ok());
        assert_eq!(world.vault_debt(DOT, PUSD, 1), 0);
        assert_eq!(world.vault_debt(DOT, PUSD, 2), v2_before);
    });
}

#[test]
fn walk_reports_only_cap_exhaustion_as_truncated() {
    build_and_execute(|world| {
        world.register_branch(DOT, PUSD, default_branch_config());
        world.open(1, DOT, PUSD, 1_000, 500, rate_pct(1, 100));
        // A price can put vault 1 below par while vault 2 stays eligible for redemption.
        world.open(2, DOT, PUSD, 10_000, 500, rate_pct(2, 100));

        // A one-step cap with budget and a second target to spare: only the cap reports truncation.
        let capped = world.preview(100_000, 1).expect("quote");
        assert_eq!(capped.steps, 1);
        assert!(capped.truncated, "the cap guard ended the walk");

        // Budget exhaustion inside the cap is a complete walk, not truncation.
        let filled = world.preview(200, 20).expect("quote");
        assert_eq!(filled.steps, 1);
        assert!(!filled.truncated);

        // Park a Dormant husk at the priority slot and sink the price: the underwater Dormant head
        // is a barrier, counted but not truncation.
        world.mint_stable(PUSD, 3, 1_000);
        assert!(world.redeem(3, DOT, PUSD, 360, 0, 4, 0).is_ok());
        assert!(world.vault_status(DOT, PUSD, 1).expect("vault 1").is_dormant());
        world.set_price(DOT, rate_pct(15, 100));
        assert!(
            world.vault_cr(2, rate_pct(15, 100)) > FixedU128::one(),
            "fixture must keep vault 2 redeemable behind the barrier"
        );
        assert_eq!(world.preview(100_000, 20), refused(Error::NoRedeemableVault));

        // Liquidation removes the underwater husk from the priority position, and the walk reaches
        // the healthy vault behind it.
        world.liquidate_redistribute_all(1);
        assert_eq!(world.vault_status(DOT, PUSD, 1), None, "husk gone");
        let unblocked = world.preview(100_000, 20).expect("quote");
        assert_eq!(unblocked.steps, 1);
        assert!(!unblocked.truncated);
        assert_eq!(unblocked.debt_cancelled, world.projected_full_debt(2));
    });
}

/// `max_steps` bounds what is paid for in advance; the result names the steps actually executed.
#[test]
fn redeem_refunds_weight_to_actual_steps() {
    build_and_execute(|world| {
        world.register_branch(DOT, PUSD, default_branch_config());
        world.open(1, DOT, PUSD, 1_000, 500, rate_pct(1, 100));
        world.open(2, DOT, PUSD, 1_000, 500, rate_pct(2, 100));
        world.mint_stable(PUSD, 3, 1_000_000);

        // The 201 budget is exhausted by the head vault: one executed step out of five.
        assert_eq!(world.pallet.effective_step_cap(5), 5);
        assert_eq!(world.redeem(3, DOT, PUSD, 201, 0, 4, 5), Ok(1));
    });
}

#[test]
fn underwater_ordinary_vault_is_skipped() {
    build_and_execute(|world| {
        world.register_branch(DOT, PUSD, default_branch_config());
        world.open(2, DOT, PUSD, 3_000, 240, rate_pct(2, 100));
        world.open(1, DOT, PUSD, 250, 240, rate_pct(1, 100));
        // Vault 1 stays active but underwater, so redemption must skip it.
        world.set_price(DOT, rate_pct(9, 10));
        world.mint_stable(PUSD, 3, 1_000_000);
        let v1_before = world.vault_debt(DOT, PUSD, 1);
        let v1_held_before = world.held(DOT, 1);
        let v2_before = world.vault_debt(DOT, PUSD, 2);
        let v2_held_before = world.held(DOT, 2);

        // 106 buys 100 of the 482 debt, 20.75%. The dynamic fee rises to 10.37%, and the fee is
        // `ceil(100 * 0.056867) = 6`. Vault 2 supplies `floor(100 / 0.9) = 111` collateral.
        assert!(world.redeem(3, DOT, PUSD, 106, 0, 4, 0).is_ok());
        assert_eq!(world.vault_debt(DOT, PUSD, 1), v1_before);
        assert_eq!(world.held(DOT, 1), v1_held_before);
        assert_eq!(v2_before - world.vault_debt(DOT, PUSD, 2), 100);
        assert_eq!(v2_held_before - world.held(DOT, 2), 111);
        assert_eq!(world.last_settlement().figures(), (100, 6, 111));
    });
}

#[test]
fn underwater_prefix_skipped_once_while_healthy_vaults_redeem() {
    build_and_execute(|world| {
        world.register_branch(DOT, PUSD, default_branch_config());
        world.open(3, DOT, PUSD, 3_000, 240, rate_pct(3, 100));
        world.open(4, DOT, PUSD, 3_000, 240, rate_pct(4, 100));
        world.open(1, DOT, PUSD, 250, 240, rate_pct(1, 100));
        world.open(2, DOT, PUSD, 260, 240, rate_pct(2, 100));
        world.set_price(DOT, rate_pct(9, 10));
        world.mint_stable(PUSD, 5, 1_000_000);
        let v1_before = world.vault_debt(DOT, PUSD, 1);
        let v2_before = world.vault_debt(DOT, PUSD, 2);
        let v3_before = world.vault_debt(DOT, PUSD, 3);
        let v4_before = world.vault_debt(DOT, PUSD, 4);
        let quote = world.preview(2_000, 0).expect("preview");
        assert_eq!(quote.steps, 4, "the walk visits the skipped prefix once");
        assert_eq!(quote.debt_cancelled, v3_before + v4_before);
        assert!(!quote.truncated);

        // Settlement checks that execution reproduces this quote.
        assert!(world.redeem(5, DOT, PUSD, 2_000, 0, 6, 0).is_ok());
        assert_eq!(world.vault_debt(DOT, PUSD, 1), v1_before);
        assert_eq!(world.vault_debt(DOT, PUSD, 2), v2_before);
        assert_eq!(world.vault_debt(DOT, PUSD, 3), 0);
        assert_eq!(world.vault_debt(DOT, PUSD, 4), 0);
        // Collateral is paid at face value, floored per step at price 0.9.
        assert_eq!(
            world.last_settlement().collateral_out,
            v3_before * 10 / 9 + v4_before * 10 / 9
        );
    });
}

#[test]
fn slippage_bound_reverts_without_state_change() {
    build_and_execute(|world| {
        world.register_branch(DOT, PUSD, default_branch_config());
        world.open(1, DOT, PUSD, 1_000, 500, rate_pct(5, 100));
        world.mint_stable(PUSD, 3, 1_000_000);

        // 221 buys 200 debt, pays its fee of 21, and receives 160 collateral, below 161.
        assert_eq!(world.redeem(3, DOT, PUSD, 221, 161, 4, 0), refused(Error::SlippageExceeded));
        assert_eq!(world.vault_debt(DOT, PUSD, 1), 501);
        assert!(world.pallet.events.is_empty());
    });
}

/// A partial fill scales the caller's slippage floor pro rata to the amount spent.
#[test]
fn slippage_floor_scales_to_partial_fill() {
    build_and_execute(|world| {
        world.register_branch(DOT, PUSD, default_branch_config());
        world.open(1, DOT, PUSD, 1_000, 500, rate_pct(5, 100));
        world.mint_stable(PUSD, 3, 1_000_000);

        // The fill cancels all 501 debt for 400 collateral. The fee is `ceil(501 * 0.255) = 128`,
        // so it spends 629 of the 1_000 offered: a floor of 638 becomes 401 and fails, one of 637
        // becomes 400 and succeeds.
        let quote = world.preview(1_000, 0).expect("quote");
        assert_eq!((quote.debt_cancelled, quote.fee, quote.collateral_out), (501, 128, 400));
        assert_eq!(world.redeem(3, DOT, PUSD, 1_000, 638, 4, 0), refused(Error::SlippageExceeded));

        assert!(world.redeem(3, DOT, PUSD, 1_000, 637, 4, 0).is_ok());
        assert_eq!(world.vault_debt(DOT, PUSD, 1), 0);
    });
}

/// A fee increase between quote and execution can fail the floor as a price change does.
#[test]
fn slippage_floor_catches_a_fee_that_climbs_after_the_quote() {
    build_and_execute(|world| {
        world.register_branch(DOT, PUSD, default_branch_config());
        world.open(1, DOT, PUSD, 100_000, 50_000, rate_pct(5, 100));
        world.mint_stable(PUSD, 3, 1_000_000);
        world.mint_stable(PUSD, 5, 1_000_000);

        let quote = world.preview(10_000, 0).expect("quote");

        // Another redeemer acts first and raises the dynamic fee.
        assert!(world.redeem(5, DOT, PUSD, 10_000, 0, 6, 0).is_ok());
        let requoted = world.preview(10_000, 0).expect("requote");
        assert!(requoted.fee > quote.fee, "the fee climbed");
        assert!(requoted.debt_cancelled < quote.debt_cancelled, "the spend buys less debt");
        assert!(requoted.collateral_out < quote.collateral_out, "and less collateral");

        assert_eq!(
            world.redeem(3, DOT, PUSD, 10_000, quote.collateral_out, 4, 0),
            refused(Error::SlippageExceeded)
        );
        assert!(world.redeem(3, DOT, PUSD, 10_000, requoted.collateral_out, 4, 0).is_ok());
    });
}

#[test]
fn insufficient_stable_balance_reverts() {
    build_and_execute(|world| {
        world.register_branch(DOT, PUSD, default_branch_config());
        world.open(1, DOT, PUSD, 1_000, 500, rate_pct(5, 100));
        world.mint_stable(PUSD, 3, 50);
        assert_eq!(
            world.redeem(3, DOT, PUSD, 201, 0, 4, 0),
            refused(Error::InsufficientStableBalance)
        );
    });
}

#[test]
fn balance_bound_uses_the_fee_raised_by_the_affordable_debt() {
    build_and_execute(|world| {
        world.register_branch(DOT, PUSD, default_branch_config());
        world.open(1, DOT, PUSD, 10_000, 1_000, rate_pct(5, 100));
        world.mint_stable(PUSD, 3, 1_000);
        let coin_debt_before = world.stablecoin_debt(PUSD);

        // The 2_000 offered exceeds the 1_000 balance. The account can pay 999 while it keeps its
        // one-unit minimum balance, and that limit binds.
        assert!(world.redeem(3, DOT, PUSD, 2_000, 0, 4, 0).is_ok());

        // The 999 supplies 824 debt and the 174 fee that this debt causes, and leaves one unit that
        // cannot buy more.
        let settled = world.last_settlement();
        assert_eq!((settled.stable_burned, settled.fee), (824, 174));
        assert_eq!(world.balance(PUSD, 3), 2, "the minimum balance and the spare unit stay");
        // 825 debt pays one more unit of fee, and would need the whole balance.
        let curve = fee_curve(FixedU128::zero(), coin_debt_before);
        let debt: Balance = 824;
        assert!(debt + curve.fee(debt) <= 999);
        assert!(debt + 1 + curve.fee(debt + 1) > 999);
    });
}

/// A fully funded budget buys the maximum debt whose fee also fits the budget.
#[test]
fn budget_binds_before_a_larger_balance() {
    build_and_execute(|world| {
        world.register_branch(DOT, PUSD, default_branch_config());
        world.open(1, DOT, PUSD, 10_000, 1_000, rate_pct(5, 100));
        world.mint_stable(PUSD, 3, 2_000);

        let quote = world.preview(1_000, 0).expect("quote");
        assert_eq!((quote.debt_cancelled, quote.fee, quote.stable_in()), (825, 175, 1_000));

        assert!(world.redeem(3, DOT, PUSD, 1_000, 0, 4, 0).is_ok());
        assert_eq!(world.balance(PUSD, 3), 1_000, "the rest of the balance stays put");
    });
}

/// A budget that cannot buy the minimum debt with its fee is the terms' fault if the balance covers
/// it, else the balance's.
#[test]
fn budget_that_the_fee_takes_below_the_minimum_reverts() {
    build_and_execute(|world| {
        world.register_branch(DOT, PUSD, default_branch_config());
        world.open(1, DOT, PUSD, 1_000, 500, rate_pct(5, 100));
        world.mint_stable(PUSD, 3, 1_000);

        // 100 of the 501 debt pay `ceil(100 * 0.054900) = 6`, so 106 buys exactly 100 debt, and 105
        // buys only 99 with the same fee.
        let quote = world.preview(106, 0).expect("quote");
        assert_eq!((quote.debt_cancelled, quote.fee), (100, 6));
        assert_eq!(world.preview(105, 0), refused(Error::BelowMinimumRedemptionAmount));
        assert_eq!(
            world.redeem(3, DOT, PUSD, 105, 0, 4, 0),
            refused(Error::BelowMinimumRedemptionAmount)
        );

        world.mint_stable(PUSD, 5, 105);
        assert_eq!(
            world.redeem(5, DOT, PUSD, 106, 0, 6, 0),
            refused(Error::InsufficientStableBalance)
        );
        assert!(world.redeem(3, DOT, PUSD, 106, 0, 4, 0).is_ok());
    });
}

#[test]
fn dynamic_fee_rises_after_ordinary_redemption() {
    build_and_execute(|world| {
        world.register_branch(DOT, PUSD, default_branch_config());
        world.open(1, DOT, PUSD, 100_000, 50_000, rate_pct(5, 100));
        world.mint_stable(PUSD, 3, 1_000_000);
        assert_eq!(world.dynamic_fee(PUSD), FixedU128::zero());
        let stablecoin_debt_before = world.stablecoin_debt(PUSD);

        assert!(world.redeem(3, DOT, PUSD, 10_550, 0, 4, 0).is_ok());

        // 10_550 buys 10_000 of the 50_048 debt, 19.98%. The dynamic fee rises to 9.99%, and the
        // fee is `ceil(10_000 * 0.054952) = 550`. The output is `10_000 / 1.25 = 8_000`.
        assert_eq!(world.last_settlement().figures(), (10_000, 550, 8_000));
        assert_eq!(stablecoin_debt_before - world.stablecoin_debt(PUSD), 10_000);

        let expected =
            fee_curve(FixedU128::zero(), stablecoin_debt_before).raised_dynamic_fee(10_000);
        assert!(expected > FixedU128::zero());
        assert_eq!(world.dynamic_fee(PUSD), expected);
    });
}

// The fee nudges how much of a coin is redeemed, whichever collateral backs it: a DOT redemption
// raises the fee that a TOKEN_X redeemer pays, and the redeemed fraction is of both markets' debt.
#[test]
fn redeeming_one_collateral_raises_the_fee_on_its_sibling_markets() {
    build_and_execute(|world| {
        world.register_branch(DOT, PUSD, default_branch_config());
        world.register_branch(TOKEN_X, PUSD, default_branch_config());

        world.open(1, DOT, PUSD, 100_000, 50_000, rate_pct(5, 100));
        world.vaults.free_collateral.insert((TOKEN_X, 2), 200_000);
        world.open(2, TOKEN_X, PUSD, 100_000, 50_000, rate_pct(5, 100));
        world.mint_stable(PUSD, 3, 1_000_000);

        let both_markets = world.stablecoin_debt(PUSD);
        assert_eq!(both_markets, 2 * world.branch_outstanding(DOT, PUSD));

        // Both redemptions cancel 10_000 debt: the first of 100_096 for `ceil(10_000 * 0.02998)`,
        // the second of 90_096, from the raised fee, for `ceil(10_000 * 0.08270)`.
        assert!(world.redeem(3, DOT, PUSD, 10_300, 0, 4, 0).is_ok());
        let dot = world.last_settlement();
        assert_eq!((dot.stable_burned, dot.fee), (10_000, 300));

        let raised = fee_curve(FixedU128::zero(), both_markets).raised_dynamic_fee(10_000);
        assert!(raised > FixedU128::zero());
        assert_eq!(world.dynamic_fee(PUSD), raised);

        // The TOKEN_X redeemer, who redeemed nothing, now pays the raised rate.
        let debt_before = world.vault_debt(TOKEN_X, PUSD, 2);
        assert!(world.redeem(3, TOKEN_X, PUSD, 10_828, 0, 4, 0).is_ok());
        assert_eq!(debt_before - world.vault_debt(TOKEN_X, PUSD, 2), 10_000);
        let token_x = world.last_settlement();
        assert_eq!((token_x.stable_burned, token_x.fee), (10_000, 828));
    });
}

/// Runs consecutive redemptions of `debts` on a copy of `world`, each after its idle time, and
/// returns the fees paid and the dynamic fee left behind.
fn redeem_in_sequence(world: &World, debts: &[(Balance, Moment)]) -> (Balance, FixedU128) {
    let mut world = world.clone();
    let fee_before = world.balance(PUSD, FEE_DEST);
    let collateral_before = world.free_collateral(DOT, 4);
    let total: Balance = debts.iter().map(|&(debt, _)| debt).sum();
    for &(debt, idle_ms) in debts {
        world.advance_time(idle_ms);
        let spend = world.spend_for_debt(debt);
        assert!(world.redeem(3, DOT, PUSD, spend, 0, 4, 0).is_ok());
    }
    // Every unit of debt buys the same collateral at the 1.25 price, however it is split.
    assert_eq!(world.free_collateral(DOT, 4) - collateral_before, total * 4 / 5);
    (world.balance(PUSD, FEE_DEST) - fee_before, world.dynamic_fee(PUSD))
}

/// 20_000 of the 500_480 stablecoin debt, at once and in halves.
#[test]
fn a_redemption_in_halves_pays_the_climb_that_the_first_half_causes() {
    build_and_execute(|world| {
        world.register_branch(DOT, PUSD, default_branch_config());
        // One vault owes 500_480: 500_000 plus a 480-unit seven-day upfront fee.
        world.open(1, DOT, PUSD, 1_000_000, 500_000, rate_pct(5, 100));
        world.mint_stable(PUSD, 3, 2_000_000);
        assert_eq!(world.vault_debt(DOT, PUSD, 1), 500_480);

        let (at_once_fee, at_once_dynamic_fee) = redeem_in_sequence(world, &[(20_000, 0)]);
        assert_eq!(at_once_fee, 300);
        assert_eq!(
            at_once_dynamic_fee,
            fee_curve(FixedU128::zero(), 500_480).raised_dynamic_fee(20_000)
        );

        let (halves_fee, halves_dynamic_fee) =
            redeem_in_sequence(world, &[(10_000, 0), (10_000, 0)]);
        assert_eq!(halves_fee, 301);
        assert!(halves_dynamic_fee > at_once_dynamic_fee);

        let (rested_fee, rested_dynamic_fee) =
            redeem_in_sequence(world, &[(10_000, 0), (10_000, 6 * HOUR_MS)]);
        assert_eq!(rested_fee, 251);
        assert!(rested_dynamic_fee < at_once_dynamic_fee);
    });
}

#[test]
fn dynamic_fee_decays_between_redemptions() {
    build_and_execute(|world| {
        world.register_branch(DOT, PUSD, default_branch_config());
        world.open(1, DOT, PUSD, 1_000_000, 500_000, rate_pct(5, 100));
        world.mint_stable(PUSD, 3, 2_000_000);

        assert!(world.redeem(3, DOT, PUSD, 100_000, 0, 4, 0).is_ok());
        let raised = world.dynamic_fee(PUSD);
        assert!(raised > FixedU128::zero());

        // 24h at the 6h half-life is four whole half-lives, so the next redemption observes exactly
        // `raised / 2^4`.
        world.advance_time(24 * HOUR_MS);
        let decayed = FixedU128::from_inner(raised.into_inner() >> 4);
        let stablecoin_debt_before = world.stablecoin_debt(PUSD);
        let spend = world.spend_for_debt(1_000);
        assert!(world.redeem(3, DOT, PUSD, spend, 0, 4, 0).is_ok());

        let expected = fee_curve(decayed, stablecoin_debt_before).raised_dynamic_fee(1_000);
        assert_eq!(world.dynamic_fee(PUSD), expected);
        assert!(expected < raised, "the decay must outweigh a small re-increase");
    });
}

#[test]
fn dynamic_fee_fully_decays_to_the_base_fee_after_long_idle() {
    build_and_execute(|world| {
        world.register_branch(DOT, PUSD, default_branch_config());
        world.open(1, DOT, PUSD, 1_000_000, 500_000, rate_pct(5, 100));
        world.mint_stable(PUSD, 3, 2_000_000);
        assert!(world.redeem(3, DOT, PUSD, 100_000, 0, 4, 0).is_ok());
        assert!(world.dynamic_fee(PUSD) > FixedU128::zero());

        // A year idle is 1_461 six-hour half-lives, so the dynamic fee saturates to exactly zero.
        world.advance_time(ONE_YEAR_MS);
        let stablecoin_debt_before = world.stablecoin_debt(PUSD);
        let accrued = world.projected_full_debt(1);
        // An amount of 202 buys 200 debt and pays a fee of 2.
        assert!(world.redeem(3, DOT, PUSD, 202, 0, 4, 0).is_ok());

        // The fee state starts again from exactly zero, as it does for a first redemption.
        assert_eq!(world.vault_debt(DOT, PUSD, 1), accrued - 200);
        let expected = fee_curve(FixedU128::zero(), stablecoin_debt_before).raised_dynamic_fee(200);
        assert_eq!(world.dynamic_fee(PUSD), expected);
        assert_eq!(world.last_settlement().fee, 2);
    });
}

#[test]
fn dormant_target_is_redeemed_before_rate_index() {
    build_and_execute(|world| {
        world.register_branch(DOT, PUSD, default_branch_config());
        world.open(1, DOT, PUSD, 1_000, 500, rate_pct(1, 100));
        world.open(2, DOT, PUSD, 1_000, 500, rate_pct(2, 100));
        world.mint_stable(PUSD, 3, 1_000_000);

        // Cancelling 360 of the 501 debt in vault 1 leaves a sub-minimum residual.
        let spend = world.spend_for_debt(360);
        assert!(world.redeem(3, DOT, PUSD, spend, 0, 4, 0).is_ok());
        assert!(world.vault_status(DOT, PUSD, 1).expect("vault 1").is_dormant());
        assert_eq!(world.branch_mut(DOT, PUSD).dormant_redemption_target, Some(1));

        let v2_before = world.vault_debt(DOT, PUSD, 2);
        let v1_residual = world.vault_debt(DOT, PUSD, 1);
        // The second redemption can reach vault 1 only through the dormant slot, which is served
        // before the rate index.
        let spend = world.spend_for_debt(100);
        assert!(world.redeem(3, DOT, PUSD, spend, 0, 4, 0).is_ok());
        assert_eq!(v1_residual, 141);
        assert_eq!(v1_residual - world.vault_debt(DOT, PUSD, 1), 100);
        assert_eq!(world.last_settlement().collateral_out, 80);
        assert_eq!(world.vault_debt(DOT, PUSD, 2), v2_before);
    });
}

#[test]
fn preview_redeem_continues_from_drained_dormant_into_rate_index() {
    build_and_execute(|world| {
        world.register_branch(DOT, PUSD, default_branch_config());
        world.open(1, DOT, PUSD, 1_000, 500, rate_pct(1, 100));
        world.open(2, DOT, PUSD, 1_000, 500, rate_pct(2, 100));
        world.mint_stable(PUSD, 3, 1_000_000);

        // A sub-minimum residual parks vault 1 as the dormant redemption target.
        assert!(world.redeem(3, DOT, PUSD, 360, 0, 4, 0).is_ok());
        assert!(world.vault_status(DOT, PUSD, 1).expect("vault 1").is_dormant());
        let v1_residual = world.vault_debt(DOT, PUSD, 1);
        let v2_debt = world.vault_debt(DOT, PUSD, 2);

        let quote = world.preview(100_000, 0).expect("quote");
        assert_eq!(quote.steps, 2);
        assert!(!quote.truncated);
        assert_eq!(quote.debt_cancelled, v1_residual + v2_debt);

        // Execution walks the same two targets.
        assert!(world.redeem(3, DOT, PUSD, 100_000, 0, 4, 0).is_ok());
        assert_eq!(world.vault_debt(DOT, PUSD, 1), 0);
        assert_eq!(world.vault_debt(DOT, PUSD, 2), 0);
    });
}

#[test]
fn recovery_bonus_pays_more_than_face_value_and_improves_the_vault_cr() {
    build_and_execute(|world| {
        world.register_branch(DOT, PUSD, default_branch_config());
        // Price 0.52 parks the vault's ratio barely above 100%, where an overpaid bonus could
        // damage the vault.
        let price = rate_pct(52, 100);
        world.setup_final_recovery(1, 1_000, 500, price);
        // A live dynamic fee makes "recovery leaves the fee state alone" meaningful.
        world.set_dynamic_fee(PUSD, rate_pct(3, 100));
        world.mint_stable(PUSD, 3, 1_000_000);
        let debt_before = world.vault_debt(DOT, PUSD, 1);

        let cr_before = world.vault_cr(1, price);
        assert!(cr_before > rate_pct(101, 100), "fixture must clear the 1% buffer");
        let bonus = recovery_pricing::recovery_bonus(
            cr_before,
            Permill::from_percent(1).into_fixed(),
            Permill::from_percent(5),
        );
        assert!(bonus > FixedU128::zero());
        assert!(bonus < Permill::from_percent(5).into_fixed());

        assert!(world.redeem(3, DOT, PUSD, 200, 0, 4, 0).is_ok());

        // The bonus is the mid-range excess 520/501 - 100% - 1%:
        // floor(floor(200 * 1.0279) / 0.52) = 394. Recovery is fee-free.
        let settled = world.last_settlement();
        assert_eq!(settled.figures(), (200, 0, 394), "recovery bonus payout");
        assert_eq!(settled.ordinary_steps, None, "recovery must not settle as ordinary");
        assert_eq!(world.vault_debt(DOT, PUSD, 1), debt_before - 200);
        assert_eq!(world.last_recovery_regime(), Some(RecoveryRegime::RecoveryBonus));

        assert!(world.vault_cr(1, price) > cr_before, "redemption must improve the ratio");
    });
}

/// The head settles at a bonus up to the 120% initial ratio. Above it, redemption and preview
/// refuse the head and offsets see no target. After the exit it is an ordinary vault again.
#[test]
fn recovery_settlement_stops_above_icr() {
    build_and_execute(|world| {
        world.register_branch(DOT, PUSD, default_branch_config());
        world.setup_final_recovery(1, 1_000, 500, rate_pct(52, 100));
        world.mint_stable(PUSD, 3, 1_000_000);

        // 550/501 is about 109.8%: the capped 5% bonus pays floor(210 / 0.55) = 381.
        world.set_price(DOT, rate_pct(55, 100));
        assert!(world.redeem(3, DOT, PUSD, 200, 0, 4, 0).is_ok());
        assert_eq!(world.last_settlement().collateral_out, 381);
        assert_eq!(world.last_recovery_regime(), Some(RecoveryRegime::RecoveryBonus));
        let debt_before = world.vault_debt(DOT, PUSD, 1);

        // 619 * 0.60 / 301 is about 123.4%: above the initial ratio, only the exit remains.
        world.set_price(DOT, rate_pct(60, 100));
        assert_eq!(
            world.redeem(3, DOT, PUSD, 200, 0, 4, 0),
            refused(Error::FinalRecoveryExitRequired)
        );
        assert_eq!(world.preview(200, 0), refused(Error::FinalRecoveryExitRequired));
        assert_eq!(world.preview_offset(200), Ok(RecoveryOffsetQuote::NoTarget));
        assert_eq!(world.execute_offset(3, 4, 200), Ok(RecoveryOffsetResult::NoTarget));
        assert_eq!(world.vault_debt(DOT, PUSD, 1), debt_before);

        // 619 * 0.56 / 301 is about 115.2%: above the minimum but not the initial ratio. Offsets
        // see a target and a redemption still pays the capped bonus, floor(105 / 0.56) = 187.
        world.set_price(DOT, rate_pct(56, 100));
        assert_eq!(world.preview_offset(100), Ok(RecoveryOffsetQuote::Available { debt: 100 }));
        assert!(world.redeem(3, DOT, PUSD, 100, 0, 4, 0).is_ok());
        assert_eq!(world.last_settlement().figures(), (100, 0, 187));
        assert_eq!(world.last_recovery_regime(), Some(RecoveryRegime::RecoveryBonus));
        assert_eq!(world.vault_debt(DOT, PUSD, 1), 201);
        assert!(world.vault_status(DOT, PUSD, 1).expect("vault 1").is_final_recovery());

        // 432 * 0.56 / 201 is about 120.4%: the head exits and is ordinary again.
        world.exit_final_recovery(DOT, PUSD, 1);
        let spend = world.spend_for_debt(200);
        assert!(world.redeem(3, DOT, PUSD, spend, 0, 4, 0).is_ok());
        // Ordinary again: face value floor(200 / 0.56) = 357, and the fee is charged.
        let settled = world.last_settlement();
        assert!(settled.ordinary_steps.is_some());
        assert_eq!(settled.collateral_out, 357);
        assert!(settled.fee > 0);
    });
}

/// A sub-minimum head above the exit ratio may be unable to exit while another vault holds the dormant
/// slot, so it stays settleable, at face value.
#[test]
fn sub_minimum_head_past_the_exit_gate_settles_at_face_value() {
    build_and_execute(|world| {
        world.register_branch(DOT, PUSD, default_branch_config());
        world.setup_final_recovery(1, 1_000, 500, rate_pct(52, 100));
        world.mint_stable(PUSD, 3, 1_000_000);
        let debt = world.vault_debt(DOT, PUSD, 1);
        assert!(world.redeem(3, DOT, PUSD, debt - 150, 0, 4, 0).is_ok());
        assert_eq!(world.vault_debt(DOT, PUSD, 1), 150);

        world.set_price(DOT, rate_pct(5, 4));
        assert_eq!(world.preview_offset(100), Ok(RecoveryOffsetQuote::Available { debt: 100 }));
        assert!(world.redeem(3, DOT, PUSD, 100, 0, 4, 0).is_ok());
        // No bonus: floor(100 / 1.25) = 80, and no fee.
        assert_eq!(world.last_settlement().figures(), (100, 0, 80));
        assert_eq!(world.vault_debt(DOT, PUSD, 1), 50);
        assert!(world.vault_status(DOT, PUSD, 1).expect("vault 1").is_final_recovery());
    });
}

#[test]
fn recovery_head_is_quoted_and_served_before_ordinary_vaults() {
    build_and_execute(|world| {
        world.register_branch(DOT, PUSD, default_branch_config());
        world.setup_final_recovery(1, 1_000, 500, rate_pct(52, 100));
        // Open the ordinary vault at a healthy price, then settle at 0.54, where the head's ratio
        // of about 107.8% is below the 110% exit ratio.
        world.set_price(DOT, rate_pct(5, 4));
        world.open(2, DOT, PUSD, 1_000, 500, rate_pct(5, 100));
        let price = rate_pct(54, 100);
        world.set_price(DOT, price);
        let v1_before = world.vault_debt(DOT, PUSD, 1);
        let v2_before = world.vault_debt(DOT, PUSD, 2);
        world.mint_stable(PUSD, 3, 1_000_000);

        let cr = world.vault_cr(1, price);
        assert!(cr > rate_pct(106, 100), "fixture must put the raw excess above the cap");
        assert!(cr < rate_pct(110, 100), "fixture must keep the head below the exit ratio");
        let bonus = recovery_pricing::recovery_bonus(
            cr,
            Permill::from_percent(1).into_fixed(),
            Permill::from_percent(5),
        );
        assert_eq!(bonus, Permill::from_percent(5).into_fixed(), "bonus capped at penalty");

        // Capped 5% bonus, floor(200 * 1.05 / 0.54) = 388 collateral, no fee.
        let quote = world.preview(200, 0).expect("quote");
        assert_eq!(quote.steps, 1);
        assert_eq!((quote.stable_in(), quote.fee, quote.collateral_out), (200, 0, 388));

        assert!(world.redeem(3, DOT, PUSD, 200, 0, 4, 0).is_ok());
        assert_eq!(world.last_recovery_regime(), Some(RecoveryRegime::RecoveryBonus));
        assert_eq!(v1_before - world.vault_debt(DOT, PUSD, 1), 200);
        assert_eq!(world.vault_debt(DOT, PUSD, 2), v2_before);
    });
}

/// A partial settlement with zero market debt must not draw Insurance Fund cover.
#[test]
fn partial_fill_with_zero_market_cancel_debt_pays_no_cover() {
    build_and_execute(|world| {
        let snapshot = RedemptionStepSnapshot {
            status: VaultStatus::FinalRecovery,
            debt: 400,
            terminal_interest_charge: 1,
            collateral: 100,
            redistribution_penalty: Permill::zero(),
            initial_collateralization_ratio: rate_pct(120, 100),
            minimum_debt: 200,
        };
        // A zero budget selects the partial branch.
        world.mint_stable(PUSD, insurance_account(PUSD), 400);
        let price = FixedU128::from_rational(1, 1_000_000);
        let plan =
            price_recovery(&snapshot, price, 0, &default_redemption_config(), world.fund(PUSD))
                .expect("prices");
        assert_eq!(plan.debt(), 0);
        assert_eq!(plan.insurance_cover(), 0, "partial fill must leave the fund untouched");
        assert_eq!(plan.regime(), RecoveryRegime::InsuranceAdjusted);
    });
}

/// With no cover for the coin, the market debt is the whole debt. Another stablecoin's fund account
/// may be flush, but it is no cover for this market.
#[test]
fn insurance_adjusted_settlement_with_empty_fund_ignores_other_coins_funds() {
    build_and_execute(|world| {
        world.register_branch(DOT, PUSD, default_branch_config());
        world.setup_final_recovery(1, 1_000, 500, rate_pct(40, 100));
        let debt = world.vault_debt(DOT, PUSD, 1);
        assert_eq!(debt, 501);
        let other_stable: StableId = PUSD + 1;
        world.mint_stable(PUSD, insurance_account(other_stable), 1_000_000);
        assert_eq!(world.balance(PUSD, insurance_account(PUSD)), 0);
        world.mint_stable(PUSD, 3, 1_000_000);

        assert!(world.redeem(3, DOT, PUSD, debt, 0, 4, 0).is_ok());

        // Cancelling all of the market debt pays the entire collateral and closes the row.
        let settled = world.last_settlement();
        assert_eq!(settled.figures(), (debt, 0, 1_000));
        assert_eq!(settled.insurance_cover, 0);
        assert_eq!(world.vault_status(DOT, PUSD, 1), None, "vault settled and closed");
        assert_eq!(world.held(DOT, 1), 0);
        assert_eq!(world.balance(PUSD, insurance_account(other_stable)), 1_000_000);
        assert_eq!(world.last_recovery_regime(), Some(RecoveryRegime::InsuranceAdjusted));
    });
}

/// The collateral value that sizes the cover rounds up: the fund covers no more than the true
/// shortfall, and the redeemer pays no less than the collateral is worth.
#[test]
fn insurance_cover_rounds_the_collateral_value_up() {
    build_and_execute(|world| {
        world.register_branch(DOT, PUSD, default_branch_config());
        // 1_000 units at 0.4005 are worth 400.5 against 501 of debt.
        world.setup_final_recovery(1, 1_000, 500, rate_pct(4_005, 10_000));
        assert_eq!(world.vault_debt(DOT, PUSD, 1), 501);
        world.mint_stable(PUSD, insurance_account(PUSD), 1_000);
        world.mint_stable(PUSD, 3, 1_000_000);

        assert!(world.redeem(3, DOT, PUSD, 1_000, 0, 4, 0).is_ok());
        let settled = world.last_settlement();
        assert_eq!(settled.figures(), (401, 0, 1_000));
        assert_eq!(settled.insurance_cover, 100);
        assert_eq!(world.vault_status(DOT, PUSD, 1), None, "vault settled and closed");
    });
}

/// A fund that redeems pays first: with the cover it drains what its own payment left.
#[test]
fn the_fund_covers_its_own_redemption_with_what_its_payment_left() {
    build_and_execute(|world| {
        world.register_branch(DOT, PUSD, default_branch_config());
        world.setup_final_recovery(1, 1_000, 500, rate_pct(4_005, 10_000));
        let fund = insurance_account(PUSD);
        world.mint_stable(PUSD, fund, 501);

        let terms = RedemptionTerms { max_stable_to_spend: 1_000, min_collateral_out: 0 };
        assert_eq!(world.try_redeem(fund, DOT, PUSD, terms, 4, 0), Ok(1));
        let settled = world.last_settlement();
        assert_eq!(settled.figures(), (401, 0, 1_000));
        assert_eq!(settled.insurance_cover, 100);
        assert_eq!(world.balance(PUSD, fund), 0, "the payment and the cover take the whole fund");
        assert_eq!(world.vault_status(DOT, PUSD, 1), None, "vault settled and closed");
    });
}

#[test]
fn set_redemption_config_updates_and_validates() {
    build_and_execute(|world| {
        world.register_branch(DOT, PUSD, default_branch_config());
        let mut config = world.config(PUSD).unwrap();
        config.minimum_redemption_amount = 250;
        assert_eq!(world.set_redemption_config(RawOrigin::Root, PUSD, config), Ok(()));
        assert_eq!(world.config(PUSD).unwrap().minimum_redemption_amount, 250);
        assert_eq!(
            world.pallet.events,
            vec![Event::RedemptionConfigUpdated { stable_id: PUSD }]
        );

        // One mutation per invalid-config axis.
        let invalid: [fn(&mut RedemptionConfig<Balance>); 5] = [
            |c| {
                c.dynamic_fee_floor = FixedU128::one();
                c.dynamic_fee_ceiling = FixedU128::zero();
            },
            |c| c.minimum_redemption_amount = 0,
            |c| c.dynamic_fee_decay_period = 0,
            |c| {
                c.base_fee = Permill::one();
                c.fee_ceiling = Permill::zero();
            },
            |c| c.dynamic_fee_increase_divisor = FixedU128::zero(),
        ];
        for mutate in invalid {
            let mut bad = config;
            mutate(&mut bad);
            assert_eq!(
                world.set_redemption_config(RawOrigin::Root, PUSD, bad),
                refused(Error::InvalidRedemptionConfig)
            );
            assert_eq!(world.config(PUSD), Some(config));
        }
    });
}

#[test]
fn stablecoin_owner_can_update_redemption_config() {
    build_and_execute(|world| {
        world.register_branch(DOT, PUSD, default_branch_config());
        let mut config = world.config(PUSD).unwrap();
        config.minimum_redemption_amount = 250;

        assert_ne!(STABLECOIN_OWNER, ADMIN);
        assert_eq!(
            world.set_redemption_config(RawOrigin::Signed(STABLECOIN_OWNER), PUSD, config),
            Ok(())
        );
        assert_eq!(world.config(PUSD).unwrap().minimum_redemption_amount, 250);
    });
}

/// Only Root and the stablecoin owner have authority: no market's admin may set the policy that
/// governs every market of the coin.
#[test]
fn set_redemption_config_rejects_market_admins() {
    build_and_execute(|world| {
        world.register_branch(DOT, PUSD, default_branch_config());
        let other_admin: AccountId = 55;
        world.set_price(TOKEN_X, FixedU128::one());
        assert_eq!(world.create_branch(TOKEN_X, PUSD, default_branch_config(), None), Ok(()));
        let config = world.config(PUSD).unwrap();

        for wrong in [ADMIN, EMERGENCY_ADMIN, other_admin] {
            assert_eq!(
                world.set_redemption_config(RawOrigin::Signed(wrong), PUSD, config),
                Err(Failure::Dispatch(DispatchError::BadOrigin))
            );
        }
    });
}

#[test]
fn set_redemption_config_unregistered_branch_reverts() {
    build_and_execute(|world| {
        assert_eq!(
            world.set_redemption_config(RawOrigin::Root, PUSD, default_redemption_config()),
            refused(Error::StablecoinNotRegistered)
        );
    });
}

#[test]
fn preview_redeem_quotes_the_fee_curve_without_side_effects() {
    build_and_execute(|world| {
        world.register_branch(DOT, PUSD, default_branch_config());
        world.open(1, DOT, PUSD, 1_000, 500, rate_pct(5, 100));

        // 223 buys 201 of the 501 debt, a 40.12% share. The dynamic fee rises to 20.06%, with a
        // mean of 10.03%, so the fee is `ceil(201 * 0.105299) = 22`.
        let quote = world.preview(223, 0).expect("preview");
        assert_eq!(quote.steps, 1);
        assert!(!quote.truncated);
        assert_eq!(quote.stable_in(), 223);
        assert_eq!((quote.debt_cancelled, quote.fee, quote.collateral_out), (201, 22, 160));
    });
}

#[test]
fn preview_and_execution_include_terminal_charge_only_for_full_step() {
    build_and_execute(|world| {
        world.register_branch(DOT, PUSD, default_branch_config());
        world.open(1, DOT, PUSD, 2_000, 500, rate_pct(10, 100));
        world.mint_stable(PUSD, 5, 10_000);
        world.advance_time(1);

        let snapshot = world.vaults.project_redemption_snapshot(DOT, PUSD, 1).unwrap();
        assert_eq!(snapshot.terminal_interest_charge, 1);
        let quote = world.preview(10_000, 1).unwrap();
        assert_eq!(quote.steps, 1);
        assert_eq!(quote.debt_cancelled, snapshot.debt + 1);

        assert!(world.redeem(5, DOT, PUSD, 10_000, quote.collateral_out, 6, 1).is_ok());
        assert_eq!(world.vault_debt(DOT, PUSD, 1), 0);
    });
}

// A partial payment must preserve the terminal charge for the surviving vault.
#[test]
fn partial_redemption_with_terminal_remainder_caps_below_base_debt() {
    build_and_execute(|world| {
        world.register_branch(DOT, PUSD, default_branch_config());
        world.open(1, DOT, PUSD, 2_000, 500, rate_pct(10, 100));
        world.mint_stable(PUSD, 5, 10_000);
        world.advance_time(1);

        let snapshot = world.vaults.project_redemption_snapshot(DOT, PUSD, 1).unwrap();
        assert_eq!(snapshot.terminal_interest_charge, 1);
        // A spend that buys the whole base debt but not the terminal charge.
        let spend = world.spend_for_debt(snapshot.debt);
        let quote = world.preview(spend, 1).unwrap();
        assert_eq!(quote.steps, 1);
        assert_eq!(quote.debt_cancelled, snapshot.debt - 1);

        assert!(world.redeem(5, DOT, PUSD, spend, 0, 6, 1).is_ok());
        assert_eq!(world.vault_debt(DOT, PUSD, 1), 1);
        let after = world.vaults.project_redemption_snapshot(DOT, PUSD, 1).unwrap();
        assert_eq!(after.terminal_interest_charge, 1);
    });
}

#[test]
fn preview_redeem_walks_multiple_vaults() {
    build_and_execute(|world| {
        world.register_branch(DOT, PUSD, default_branch_config());
        world.open(1, DOT, PUSD, 1_000, 500, rate_pct(1, 100));
        world.open(2, DOT, PUSD, 1_000, 500, rate_pct(2, 100));
        let v1_before = world.vault_debt(DOT, PUSD, 1);
        let v2_before = world.vault_debt(DOT, PUSD, 2);

        let quote = world.preview(100_000, 0).expect("preview");
        assert_eq!(quote.steps, 2);
        assert!(!quote.truncated);
        assert_eq!(quote.debt_cancelled, v1_before + v2_before);
    });
}

#[test]
fn multiple_final_recovery_vaults_settle_fifo_head_with_per_head_insurance_fund() {
    build_and_execute(|world| {
        world.register_branch(DOT, PUSD, default_branch_config());
        // Recovery price 0.10: both vaults sit below par.
        let rp = rate_pct(1, 10);
        world.setup_final_recovery(1, 1_000, 500, rp);
        world.setup_final_recovery(2, 1_000, 500, rp);
        assert_eq!(world.final_recovery_queue(), vec![1u64, 2u64]);

        let debt1 = world.vault_debt(DOT, PUSD, 1);
        let debt2 = world.vault_debt(DOT, PUSD, 2);
        assert_eq!(debt1, 501);
        assert_eq!(debt2, 501);
        // Fund exactly vault 1's shortfall, so the head drains it and the next head settles against
        // an empty fund.
        let collateral_value_1 = rp.saturating_mul_int(world.held(DOT, 1));
        let shortfall_1 = debt1 - collateral_value_1;
        world.mint_stable(PUSD, insurance_account(PUSD), shortfall_1);
        world.mint_stable(PUSD, 3, 10_000);

        // The first redemption settles only the head. The full payout leaves neither debt nor
        // collateral, so the vault closes.
        assert!(world.redeem(3, DOT, PUSD, 10_000, 0, 4, 0).is_ok());
        assert_eq!(world.vault_status(DOT, PUSD, 1), None, "head settled and closed");
        assert_eq!(world.held(DOT, 1), 0);
        // A below-par owner has no equity claim on any of the collateral.
        assert_eq!(world.vaults.closed, vec![(1, 0)]);
        assert_eq!(world.last_recovery_regime(), Some(RecoveryRegime::InsuranceAdjusted));
        let first = world.last_settlement();
        assert_eq!(first.figures(), (collateral_value_1, 0, 1_000));
        assert_eq!(first.insurance_cover, shortfall_1);
        assert_eq!(world.balance(PUSD, insurance_account(PUSD)), 0, "head 1 drained the fund");
        // Head-only: vault 2 is untouched and becomes the new head.
        assert_eq!(world.vault_debt(DOT, PUSD, 2), debt2);
        assert!(world.vault_status(DOT, PUSD, 2).expect("vault 2").is_final_recovery());
        assert_eq!(world.final_recovery_queue(), vec![2u64]);

        // The second settles vault 2 against the empty fund, so the redeemer covers all the debt.
        assert!(world.redeem(3, DOT, PUSD, 10_000, 0, 4, 0).is_ok());
        assert_eq!(world.vault_status(DOT, PUSD, 2), None, "second head settled and closed");
        assert_eq!(world.held(DOT, 2), 0);
        assert!(world.final_recovery_queue().is_empty(), "queue drained");
        assert_eq!(world.last_recovery_regime(), Some(RecoveryRegime::InsuranceAdjusted));
        let second = world.last_settlement();
        assert_eq!(second.figures(), (debt2, 0, 1_000));
        assert_eq!(second.insurance_cover, 0, "no fund left to burn");
        assert!(
            second.stable_burned > first.stable_burned,
            "drained fund pushes the loss onto the redeemer"
        );
    });
}

#[test]
fn insurance_adjusted_recovery_burns_fund_only_when_market_debt_exhausted() {
    build_and_execute(|world| {
        world.register_branch(DOT, PUSD, default_branch_config());
        // Recovery price 0.40: below par with a partial Insurance Fund cover.
        world.setup_final_recovery(1, 1_000, 500, rate_pct(40, 100));
        world.mint_stable(PUSD, insurance_account(PUSD), 50);
        world.mint_stable(PUSD, 3, 10_000);
        let debt_before = world.vault_debt(DOT, PUSD, 1);

        // 200 is less than the market debt of 451, so the fund must not change.
        let partial = world.preview(200, 0).expect("partial quote");
        assert_eq!((partial.debt_cancelled, partial.fee), (200, 0));
        assert!(world.redeem(3, DOT, PUSD, 200, 0, 4, 0).is_ok());
        assert!(world.vault_status(DOT, PUSD, 1).expect("vault 1").is_final_recovery());
        assert_eq!(world.last_recovery_regime(), Some(RecoveryRegime::InsuranceAdjusted));
        // 200 buys `floor(200 * 1_000 / 451) = 443` of the 1_000 collateral units.
        let first = world.last_settlement();
        assert_eq!(first.figures(), (200, 0, 443));
        assert_eq!(first.insurance_cover, 0, "fund untouched mid-settlement");
        assert_eq!(debt_before - world.vault_debt(DOT, PUSD, 1), 200);

        // At 0.30 the remaining 557 units are valued at 168 (167.1 rounded up) against 301 of debt.
        // The fund covers 50 of the shortfall of 133, and the market side cancels the other 251.
        world.set_price(DOT, rate_pct(30, 100));
        assert!(world.redeem(3, DOT, PUSD, 10_000, 0, 4, 0).is_ok());
        let second = world.last_settlement();
        assert_eq!(second.figures(), (251, 0, 557));
        assert_eq!(second.insurance_cover, 50, "cover burned on completion");
        assert_eq!(world.vault_status(DOT, PUSD, 1), None, "vault settled and closed");
        assert_eq!(world.held(DOT, 1), 0);
        assert_eq!(world.last_recovery_regime(), Some(RecoveryRegime::InsuranceAdjusted));
        assert_eq!(world.balance(PUSD, insurance_account(PUSD)), 0);
    });
}

#[test]
fn ordinary_redemption_succeeds_in_safety_mode() {
    build_and_execute(|world| {
        world.register_branch(DOT, PUSD, default_branch_config());
        world.open(1, DOT, PUSD, 1_000, 500, rate_pct(5, 100));
        // The branch ratio falls below the 130% safety threshold while the vault stays above 100%.
        world.set_price(DOT, rate_pct(6, 10));
        assert!(world.branch_tcr(DOT, PUSD) < rate_pct(130, 100));

        let debt_before = world.vault_debt(DOT, PUSD, 1);
        world.mint_stable(PUSD, 3, 1_000_000);
        let tcr_before = world.branch_tcr(DOT, PUSD);

        // 223 buys 201 of the 501 debt for a fee of 22; at 0.6 it buys `floor(201 / 0.6) = 335`.
        assert!(world.redeem(3, DOT, PUSD, 223, 0, 4, 0).is_ok());
        assert_eq!(debt_before - world.vault_debt(DOT, PUSD, 1), 201);
        assert_eq!(world.last_settlement().figures(), (201, 22, 335));
        // A face-value redemption can only raise a branch ratio above one.
        assert!(world.branch_tcr(DOT, PUSD) > tcr_before, "redemption must raise the ratio");
    });
}

#[test]
fn redeem_and_preview_report_oracle_down_or_zero_price() {
    build_and_execute(|world| {
        world.register_branch(DOT, PUSD, default_branch_config());
        world.open(1, DOT, PUSD, 1_000, 500, rate_pct(5, 100));
        world.mint_stable(PUSD, 3, 1_000);

        // A failing feed is refused before any vault is touched.
        world.oracle_available = false;
        assert_eq!(world.redeem(3, DOT, PUSD, 201, 0, 4, 0), refused(Error::OracleUnavailable));
        assert_eq!(world.preview(201, 0), refused(Error::OracleUnavailable));

        // A feed that answers with a zero price is refused the same way.
        world.oracle_available = true;
        world.set_price(DOT, FixedU128::zero());
        assert_eq!(world.redeem(3, DOT, PUSD, 201, 0, 4, 0), refused(Error::OracleUnavailable));
        assert_eq!(world.preview(201, 0), refused(Error::OracleUnavailable));
    });
}

#[test]
fn ordinary_redemption_accrues_target_interest_before_cancelling() {
    build_and_execute(|world| {
        world.register_branch(DOT, PUSD, default_branch_config());
        // A full year at 100% makes accrued interest a visible, large integer.
        world.open(1, DOT, PUSD, 1_000_000, 500_000, rate_pct(100, 100));
        let interest_time =
            |world: &mut World| world.branch_mut(DOT, PUSD).vaults[&1].last_interest_time;
        let debt_at_open = world.vault_debt(DOT, PUSD, 1);
        let stamped_at_open = interest_time(world);
        world.mint_stable(PUSD, 3, 2_000_000);

        world.advance_time(ONE_YEAR_MS);

        // The projection reports the fully accrued debt without touching the vault.
        let accrued = world.projected_full_debt(1);
        assert!(accrued > debt_at_open, "a year of interest must grow the debt");
        assert_eq!(world.vault_debt(DOT, PUSD, 1), debt_at_open);

        assert!(world.redeem(3, DOT, PUSD, 1_011, 0, 4, 0).is_ok());

        // Cancellation of 1_005 debt applies to the accrued balance, not the opening principal.
        assert_eq!(interest_time(world), world.now());
        assert!(interest_time(world) > stamped_at_open);
        assert_eq!(world.vault_debt(DOT, PUSD, 1), accrued - 1_005);
        // The denominator includes one year of interest: the charge is `ceil(1_005 * 0.005249)`.
        assert_eq!(world.last_settlement().figures(), (1_005, 6, 804));
    });
}

#[test]
fn ordinary_redemption_at_six_decimals_scales_exactly() {
    build_and_execute(|world| {
        world.register_branch(DOT, USDX, usdx_branch_config());
        world.open(1, DOT, USDX, 1_000 * USDX_UNIT, 500 * USDX_UNIT, rate_pct(5, 100));
        let debt_before = world.vault_debt(DOT, USDX, 1);
        world.mint_stable(USDX, 3, 1_000 * USDX_UNIT);
        let held_before = world.held(DOT, 1);

        assert!(world.redeem(3, DOT, USDX, 222_186_162, 0, 4, 0).is_ok());

        // Exactly 201 coins of debt for collateral of `201 / 1.25 = 160.8` coins.
        assert_eq!(debt_before - world.vault_debt(DOT, USDX, 1), 201 * USDX_UNIT);
        assert_eq!(held_before - world.held(DOT, 1), 160_800_000);
        // The coin carries 500_479_124, so the fee is
        // `ceil(201_000_000 * 0.1054037883) = 21_186_162`.
        assert_eq!(
            world.last_settlement().figures(),
            (201 * USDX_UNIT, 21_186_162, 160_800_000)
        );
    });
}

#[test]
fn recovery_offset_settles_fifo_head_and_matches_preview() {
    build_and_execute(|world| {
        world.register_branch(DOT, PUSD, default_branch_config());
        world.setup_final_recovery(1, 1_000, 500, rate_pct(52, 100));
        world.setup_final_recovery(2, 1_000, 500, rate_pct(52, 100));
        // At 0.54 both queued vaults sit at about 107.8%, inside the recovery-bonus regime.
        world.set_price(DOT, rate_pct(54, 100));
        assert_eq!(world.final_recovery_queue(), vec![1u64, 2u64]);
        let debt1 = world.vault_debt(DOT, PUSD, 1);
        assert_eq!(debt1, 501);
        let debt2 = world.vault_debt(DOT, PUSD, 2);
        world.mint_stable(PUSD, 3, 10_000);
        let payer_before = world.balance(PUSD, 3);
        let recipient_before = world.free_collateral(DOT, 4);
        let fee_before = world.balance(PUSD, FEE_DEST);
        let issuance_before = world.total_supply(PUSD);

        // The quote sizes exactly the burn the execution then performs.
        assert_eq!(
            world.preview_offset(10_000),
            Ok(RecoveryOffsetQuote::Available { debt: debt1 })
        );
        // The bonus is capped at 5%: floor(floor(501 * 1.05) / 0.54) = 974.
        assert_eq!(
            world.execute_offset(3, 4, 10_000),
            Ok(RecoveryOffsetResult::Applied { collateral_out: 974 })
        );

        // The drained head leaves the queue; the next head is untouched.
        assert_eq!(world.vault_debt(DOT, PUSD, 1), 0);
        assert!(world.vault_status(DOT, PUSD, 1).expect("vault 1").is_dormant());
        assert_eq!(world.final_recovery_queue(), vec![2u64]);
        assert_eq!(world.vault_debt(DOT, PUSD, 2), debt2);
        assert_eq!(payer_before - world.balance(PUSD, 3), debt1);
        assert_eq!(world.free_collateral(DOT, 4) - recipient_before, 974);
        assert_eq!(world.balance(PUSD, FEE_DEST), fee_before);
        assert_eq!(issuance_before - world.total_supply(PUSD), debt1);
    });
}

#[test]
fn recovery_offset_partial_fill_keeps_head_queued() {
    build_and_execute(|world| {
        world.register_branch(DOT, PUSD, default_branch_config());
        world.setup_final_recovery(1, 1_000, 500, rate_pct(52, 100));
        world.set_price(DOT, rate_pct(54, 100));
        let debt_before = world.vault_debt(DOT, PUSD, 1);
        world.mint_stable(PUSD, 3, 10_000);
        let payer_before = world.balance(PUSD, 3);
        let recipient_before = world.free_collateral(DOT, 4);

        assert_eq!(world.preview_offset(200), Ok(RecoveryOffsetQuote::Available { debt: 200 }));
        // 5%-capped bonus: floor(floor(200 * 1.05) / 0.54) = 388.
        assert_eq!(
            world.execute_offset(3, 4, 200),
            Ok(RecoveryOffsetResult::Applied { collateral_out: 388 })
        );

        // The partially settled head keeps its place at the front.
        assert_eq!(world.vault_debt(DOT, PUSD, 1), debt_before - 200);
        assert!(world.vault_status(DOT, PUSD, 1).expect("vault 1").is_final_recovery());
        assert_eq!(world.final_recovery_queue(), vec![1u64]);
        assert_eq!(payer_before - world.balance(PUSD, 3), 200);
        assert_eq!(world.free_collateral(DOT, 4) - recipient_before, 388);
    });
}

/// A zero budget against a recovery-bonus head is no target in the quote and in execution.
#[test]
fn recovery_offset_zero_budget_is_no_target_in_both_paths() {
    build_and_execute(|world| {
        world.register_branch(DOT, PUSD, default_branch_config());
        world.setup_final_recovery(1, 1_000, 500, rate_pct(52, 100));
        world.set_price(DOT, rate_pct(54, 100));
        world.mint_stable(PUSD, 3, 1_000);

        let before = format!("{world:?}");
        assert_eq!(world.preview_offset(0), Ok(RecoveryOffsetQuote::NoTarget));
        assert_eq!(world.execute_offset(3, 4, 0), Ok(RecoveryOffsetResult::NoTarget));
        assert_eq!(format!("{world:?}"), before);
    });
}

#[test]
fn recovery_offset_below_par_head_is_refused_in_both_paths() {
    build_and_execute(|world| {
        world.register_branch(DOT, PUSD, default_branch_config());
        // Price 0.40 parks the head below par: settlement at a discount stays exclusive to the
        // redemption pathway.
        world.setup_final_recovery(1, 1_000, 500, rate_pct(40, 100));
        let debt_before = world.vault_debt(DOT, PUSD, 1);
        let held_before = world.held(DOT, 1);
        world.mint_stable(PUSD, 3, 10_000);
        let payer_before = world.balance(PUSD, 3);

        assert_eq!(world.preview_offset(10_000), Ok(RecoveryOffsetQuote::BelowPar));
        assert_eq!(world.execute_offset(3, 4, 10_000), Ok(RecoveryOffsetResult::BelowPar));
        assert_eq!(world.vault_debt(DOT, PUSD, 1), debt_before);
        assert_eq!(world.held(DOT, 1), held_before);
        assert_eq!(world.balance(PUSD, 3), payer_before);
        assert!(world.vault_status(DOT, PUSD, 1).expect("vault 1").is_final_recovery());
    });
}

#[test]
fn recovery_offset_without_recovery_head_is_no_target_in_both_paths() {
    build_and_execute(|world| {
        // Unregistered market: the missing target answers before the config lookup could report
        // `StablecoinNotRegistered`.
        assert_eq!(world.preview_offset(1_000), Ok(RecoveryOffsetQuote::NoTarget));
        assert_eq!(world.execute_offset(3, 4, 1_000), Ok(RecoveryOffsetResult::NoTarget));

        // An ordinary vault is not an offset target either.
        world.register_branch(DOT, PUSD, default_branch_config());
        world.open(1, DOT, PUSD, 1_000, 500, rate_pct(5, 100));
        let debt_before = world.vault_debt(DOT, PUSD, 1);
        world.mint_stable(PUSD, 3, 1_000);

        assert_eq!(world.preview_offset(1_000), Ok(RecoveryOffsetQuote::NoTarget));
        assert_eq!(world.execute_offset(3, 4, 1_000), Ok(RecoveryOffsetResult::NoTarget));
        assert_eq!(world.vault_debt(DOT, PUSD, 1), debt_before);
    });
}

#[test]
fn recovery_offset_underfunded_payment_partially_fills() {
    build_and_execute(|world| {
        world.register_branch(DOT, PUSD, default_branch_config());
        world.setup_final_recovery(1, 1_000, 500, rate_pct(52, 100));
        world.set_price(DOT, rate_pct(54, 100));
        let debt_before = world.vault_debt(DOT, PUSD, 1);
        // The payer holds less than the 501 an uncapped offset could cancel; the payment is the
        // budget, so the offset fills exactly what it carries.
        world.mint_stable(PUSD, 3, 100);

        // 5%-capped bonus: floor(floor(100 * 1.05) / 0.54) = 194.
        assert_eq!(
            world.execute_offset(3, 4, 10_000),
            Ok(RecoveryOffsetResult::Applied { collateral_out: 194 })
        );

        assert_eq!(world.vault_debt(DOT, PUSD, 1), debt_before - 100);
        assert_eq!(world.balance(PUSD, 3), 0);
        assert_eq!(world.final_recovery_queue(), vec![1u64]);
    });
}

#[test]
fn recovery_offset_frozen_branch_reverts() {
    build_and_execute(|world| {
        world.register_branch(DOT, PUSD, default_branch_config());
        world.setup_final_recovery(1, 1_000, 500, rate_pct(52, 100));
        world.set_price(DOT, rate_pct(5, 4));
        world.mint_stable(PUSD, 3, 1_000);
        world.branch_mut(DOT, PUSD).frozen = true;

        // Frozen-mode enforcement lives vault-side: the head is still queued, so both paths reach
        // the vault and are rejected there.
        assert_eq!(world.preview_offset(200), Err(Failure::Dispatch(BRANCH_FROZEN)));
        assert_eq!(world.execute_offset(3, 4, 200), Err(Failure::Dispatch(BRANCH_FROZEN)));
        assert_eq!(world.balance(PUSD, 3), 1_000);
    });
}

#[test]
fn recovery_offset_payment_asset_selects_the_market() {
    build_and_execute(|world| {
        world.register_branch(DOT, PUSD, default_branch_config());
        world.setup_final_recovery(1, 1_000, 500, rate_pct(52, 100));

        // Queue a settleable head in the sibling USDX market too.
        world.set_price(DOT, rate_pct(5, 4));
        world.register_branch(DOT, USDX, usdx_branch_config());
        world.open(2, DOT, USDX, 1_000 * USDX_UNIT, 500 * USDX_UNIT, rate_pct(5, 100));
        world.enter_final_recovery(DOT, USDX, 2);
        // Both heads settle at 0.54, inside the bonus regime and below the exit ratio.
        world.set_price(DOT, rate_pct(54, 100));

        let pusd_debt_before = world.vault_debt(DOT, PUSD, 1);
        let usdx_debt_before = world.vault_debt(DOT, USDX, 2);
        world.mint_stable(USDX, 3, 100 * USDX_UNIT);
        let issuance_before = world.total_supply(USDX);

        // The payment's own asset names the market.
        let payment = world.withdraw(USDX, 3, 100 * USDX_UNIT, Preservation::Expendable);
        let price = world.price(DOT);
        let fund = world.fund(USDX);
        let (result, change) = world
            .pallet
            .execute_recovery_offset(&mut world.vaults, DOT, price, fund, payment, 4)
            .expect("offset settles");
        assert_eq!(change, StableCredit::zero(USDX), "full budget must be consumed");
        assert!(matches!(result, RecoveryOffsetResult::Applied { .. }));

        // The USDX head absorbed the full budget; the PUSD market never moved.
        assert_eq!(world.vault_debt(DOT, USDX, 2), usdx_debt_before - 100 * USDX_UNIT);
        assert_eq!(world.vault_debt(DOT, PUSD, 1), pusd_debt_before);
        assert_eq!(world.balance(USDX, 3), 0);
        assert_eq!(issuance_before - world.total_supply(USDX), 100 * USDX_UNIT);
    });
}

/// Offsets move no fee and report nothing.
#[test]
fn recovery_offset_leaves_dynamic_fee_untouched() {
    build_and_execute(|world| {
        world.register_branch(DOT, PUSD, default_branch_config());
        world.setup_final_recovery(1, 1_000, 500, rate_pct(52, 100));
        world.set_price(DOT, rate_pct(54, 100));
        world.set_dynamic_fee(PUSD, rate_pct(3, 100));
        let state_before = world.pallet.redemption_state(PUSD);
        world.mint_stable(PUSD, 3, 1_000);
        world.pallet.events.clear();

        assert_eq!(
            world.execute_offset(3, 4, 200),
            Ok(RecoveryOffsetResult::Applied { collateral_out: 388 })
        );

        assert_eq!(world.pallet.redemption_state(PUSD), state_before);
        assert_eq!(world.pallet.events.len(), 0);
    });
}

/// At six decimals, a partial below-par step floors raw units, never coins, and the full settlement
/// pays every raw unit that is left.
#[test]
fn insurance_adjusted_flooring_at_six_decimals_costs_raw_units_only_on_partial_steps() {
    build_and_execute(|world| {
        world.register_branch(DOT, USDX, usdx_branch_config());
        world.open(1, DOT, USDX, 1_000 * USDX_UNIT, 500 * USDX_UNIT, rate_pct(5, 100));
        world.set_price(DOT, rate_pct(40, 100));
        world.enter_final_recovery(DOT, USDX, 1);
        let debt = world.vault_debt(DOT, USDX, 1);
        assert_eq!(debt, 500 * USDX_UNIT + 479_124);
        world.mint_stable(USDX, insurance_account(USDX), 50 * USDX_UNIT);
        world.mint_stable(USDX, 3, 1_000 * USDX_UNIT);

        // 50e6 of cover leaves market debt 450_479_124. A partial 225e6 buys
        // floor(225e6 * 1e9 / 450_479_124) = 499_468_206 of the 1e9 units.
        assert!(world.redeem(3, DOT, USDX, 225 * USDX_UNIT, 0, 4, 0).is_ok());
        let partial = world.last_settlement();
        assert_eq!(partial.figures(), (225 * USDX_UNIT, 0, 499_468_206));
        assert_eq!(partial.insurance_cover, 0, "fund untouched");
        assert_eq!(world.vault_debt(DOT, USDX, 1), debt - 225 * USDX_UNIT);
        assert_eq!(world.held(DOT, 1), 500_531_794);

        // The units left are valued at 200_212_718 against 275_479_124 of debt; the fund covers
        // 50e6 of the shortfall, so the market side cancels 225_479_124 and gets all of them.
        assert!(world.redeem(3, DOT, USDX, 1_000 * USDX_UNIT, 0, 4, 0).is_ok());
        let full = world.last_settlement();
        assert_eq!(full.figures(), (225_479_124, 0, 500_531_794));
        assert_eq!(full.insurance_cover, 50 * USDX_UNIT);
        assert_eq!(world.vault_status(DOT, USDX, 1), None, "vault settled and closed");
        assert_eq!(world.held(DOT, 1), 0);
        assert_eq!(world.last_recovery_regime(), Some(RecoveryRegime::InsuranceAdjusted));
    });
}

/// The default config with every fee component zeroed.
fn zero_fee_redemption_config() -> RedemptionConfig<Balance> {
    RedemptionConfig {
        dynamic_fee_floor: FixedU128::zero(),
        dynamic_fee_ceiling: FixedU128::zero(),
        base_fee: Permill::zero(),
        fee_ceiling: Permill::zero(),
        ..default_redemption_config()
    }
}

/// An ordinary redemption spends at most what keeps the redeemer at or above the stablecoin's
/// minimum balance, whatever the request.
#[test]
fn ordinary_redemption_keeps_the_redeemer_at_or_above_the_minimum_balance() {
    build_and_execute(|world| {
        let balance = 300 * USDX_UNIT;
        let payable = balance - USDX_MIN_BALANCE;
        world.register_branch(DOT, USDX, usdx_branch_config());
        world.open(1, DOT, USDX, 1_000 * USDX_UNIT, 500 * USDX_UNIT, rate_pct(5, 100));
        world.mint_stable(USDX, 3, balance);
        let debt_before = world.vault_debt(DOT, USDX, 1);

        let quote = world.preview_redeem(DOT, USDX, payable, 0).expect("quote");
        assert_eq!(quote.debt_cancelled, 263_885_993);
        assert_eq!(quote.fee, 36_104_007);
        assert_eq!(quote.stable_in(), payable);
        assert_eq!(quote.collateral_out, 211_108_794);

        for request in [payable + 1, balance - 4_000, balance, balance + 1, Balance::MAX] {
            let mut world = world.clone();
            // The quote does not know the balance, so it prices the request itself.
            let requested = world.preview_redeem(DOT, USDX, request, 0).expect("quote");
            assert!(requested.stable_in() > payable, "request {request} breaches the minimum");

            assert!(world.redeem(3, DOT, USDX, request, 0, 4, 0).is_ok());

            assert_eq!(
                world.last_settlement().figures(),
                (quote.debt_cancelled, quote.fee, quote.collateral_out),
                "request {request}"
            );
            assert_eq!(debt_before - world.vault_debt(DOT, USDX, 1), quote.debt_cancelled);
            assert_eq!(world.balance(USDX, 3), USDX_MIN_BALANCE, "request {request}");
        }
    });
}

/// Without a fee the debt is the whole spend, but the account still keeps its minimum balance.
#[test]
fn fee_free_redemption_also_keeps_the_minimum_balance() {
    build_and_execute(|world| {
        world.register_branch(DOT, USDX, usdx_branch_config());
        assert_eq!(
            world.set_redemption_config(RawOrigin::Root, USDX, zero_fee_redemption_config()),
            Ok(())
        );
        world.open(1, DOT, USDX, 1_000 * USDX_UNIT, 500 * USDX_UNIT, rate_pct(5, 100));
        let debt_before = world.vault_debt(DOT, USDX, 1);
        world.mint_stable(USDX, 3, 300 * USDX_UNIT);

        let burned = 300 * USDX_UNIT - USDX_MIN_BALANCE;
        assert!(world.redeem(3, DOT, USDX, 300 * USDX_UNIT, 0, 4, 0).is_ok());

        assert_eq!(world.balance(USDX, 3), USDX_MIN_BALANCE);
        assert_eq!(debt_before - world.vault_debt(DOT, USDX, 1), burned);
        let settled = world.last_settlement();
        assert_eq!((settled.stable_burned, settled.fee), (burned, 0));
    });
}

/// A recovery redemption may spend the whole balance; a spend that would strand a sub-minimum
/// remainder is priced again at the amount that keeps the minimum balance.
#[test]
fn recovery_redemption_may_consume_the_redeemer_account() {
    build_and_execute(|world| {
        world.register_branch(DOT, USDX, usdx_branch_config());
        world.open(1, DOT, USDX, 1_000 * USDX_UNIT, 500 * USDX_UNIT, rate_pct(5, 100));
        world.set_price(DOT, rate_pct(52, 100));
        world.enter_final_recovery(DOT, USDX, 1);
        let debt_before = world.vault_debt(DOT, USDX, 1);

        let request = 200 * USDX_UNIT;
        for (balance, burned) in [
            // The request is the whole balance and drains the account.
            (request, request),
            // The request would leave 4_000 raw units, less than the 10_000-unit minimum.
            (request + 4_000, request - 6_000),
        ] {
            let mut world = world.clone();
            world.mint_stable(USDX, 3, balance);

            assert!(world.redeem(3, DOT, USDX, request, 0, 4, 0).is_ok());

            assert_eq!(debt_before - world.vault_debt(DOT, USDX, 1), burned);
            assert_eq!(world.balance(USDX, 3), balance - burned);
            assert_eq!(world.last_recovery_regime(), Some(RecoveryRegime::RecoveryBonus));
        }
    });
}

/// At exactly the minimum balance, a smaller request can neither preserve nor consume the account.
#[test]
fn recovery_redemption_at_the_minimum_balance_reports_insufficient_balance() {
    build_and_execute(|world| {
        world.register_branch(DOT, USDX, usdx_branch_config());
        world.open(1, DOT, USDX, 1_000 * USDX_UNIT, 500 * USDX_UNIT, rate_pct(5, 100));
        world.set_price(DOT, rate_pct(52, 100));
        world.enter_final_recovery(DOT, USDX, 1);
        world.mint_stable(USDX, 3, USDX_MIN_BALANCE);
        let request = USDX_MIN_BALANCE / 2;

        let quote = world.preview_redeem(DOT, USDX, request, 0).expect("recovery quote");
        assert_eq!(quote.debt_cancelled, request);
        assert_eq!(
            world.redeem(3, DOT, USDX, request, 0, 4, 0),
            refused(Error::InsufficientStableBalance)
        );
    });
}

/// Raw units give an exact representation of fractional token amounts.
const UNIT: Balance = 1_000;

/// A branch without an upfront fee, so a vault's principal equals its debt.
fn example_config() -> BranchConfig {
    BranchConfig { upfront_fee_period: 0, ..default_branch_config() }
}

/// An ordinary redemption prices its dynamic fee against stablecoin-wide debt.
#[test]
fn ordinary_redemption_prices_its_fee_against_the_stablecoin_wide_debt() {
    build_and_execute(|world| {
        world.register_branch(DOT, PUSD, example_config());
        world.set_price(DOT, rate_pct(2, 1));

        // The target uses the floor borrow rate, so the walk reaches it first.
        world.open(1, DOT, PUSD, 4_000, 5_000, rate_pct(1, 1_000));
        // The rest of the coin's 100_000 of debt, on a costlier vault.
        world.open(2, DOT, PUSD, 200_000, 95_000, rate_pct(5, 100));
        assert_eq!(world.stablecoin_debt(PUSD), 100_000);

        world.set_dynamic_fee(PUSD, rate_pct(15, 1_000));
        world.mint_stable(PUSD, 3, 1_000_000);

        assert!(world.redeem(3, DOT, PUSD, 1_023, 0, 4, 0).is_ok());

        // 1_000 of 100_000 debt is 1%, not 20% of the target's. The dynamic fee rises by 0.5% to
        // 2.0%; the fee is `ceil(1_000 * 0.0225) = 23` and the output `1_000 / 2 = 500`.
        let dynamic_fee = world.dynamic_fee(PUSD);
        assert_eq!(dynamic_fee, fee_curve(rate_pct(15, 1_000), 100_000).raised_dynamic_fee(1_000));
        assert_eq!(dynamic_fee, rate_pct(2, 100));
        assert_eq!(world.last_settlement().figures(), (1_000, 23, 500));

        assert_eq!(world.vault_debt(DOT, PUSD, 1), 4_000);
        assert_eq!(world.held(DOT, 1), 3_500);
    });
}

/// A vault below its minimum debt becomes the dormant continuation target.
#[test]
fn redemption_below_minimum_debt_leaves_a_dormant_continuation_vault() {
    build_and_execute(|world| {
        let config = BranchConfig { minimum_debt: 2_000 * UNIT, ..example_config() };
        world.register_branch(DOT, PUSD, config);
        world.set_price(DOT, rate_pct(2, 1));

        // 3_000 of debt against 2_000 DOT.
        world.open(1, DOT, PUSD, 2_000 * UNIT, 3_000 * UNIT, rate_pct(1, 1_000));
        world.mint_stable(PUSD, 3, 1_000_000 * UNIT);

        let spend = world.spend_for_debt(2_800 * UNIT);
        assert!(world.redeem(3, DOT, PUSD, spend, 0, 4, 0).is_ok());

        // 2_800 cancelled pays 1_400 DOT, leaving 200 of debt against 600 DOT.
        assert_eq!(world.last_settlement().collateral_out, 1_400 * UNIT);
        assert_eq!(world.vault_debt(DOT, PUSD, 1), 200 * UNIT);
        assert_eq!(world.held(DOT, 1), 600 * UNIT);
        assert!(world.vault_status(DOT, PUSD, 1).expect("vault").is_dormant());
        assert_eq!(world.branch_mut(DOT, PUSD).dormant_redemption_target, Some(1));
    });
}

/// A recovery head at or above par pays face value plus a bonus capped by the penalty.
#[test]
fn final_recovery_redemption_above_par_pays_the_capped_bonus() {
    build_and_execute(|world| {
        let mut config = example_config();
        // The vault will sit at 120%, so the minimum ratio must exceed it.
        config.minimum_collateralization_ratio = rate_pct(130, 100);
        config.initial_collateralization_ratio = rate_pct(140, 100);
        config.redistribution_penalty = Permill::from_percent(10);
        world.register_branch(DOT, PUSD, config);

        world.set_price(DOT, rate_pct(4, 1));
        world.open(1, DOT, PUSD, 6_000 * UNIT, 10_000 * UNIT, rate_pct(1, 1_000));
        world.set_price(DOT, rate_pct(2, 1));
        world.enter_final_recovery(DOT, PUSD, 1);

        world.mint_stable(PUSD, 3, 1_000_000 * UNIT);

        assert!(world.redeem(3, DOT, PUSD, 2_000 * UNIT, 0, 4, 0).is_ok());

        // 120% - 100% - 1% = 19%, capped by the 10% penalty: 2_200 of value, or 1_100 DOT.
        assert_eq!(world.last_settlement().figures(), (2_000 * UNIT, 0, 1_100 * UNIT));
        assert_eq!(world.vault_debt(DOT, PUSD, 1), 8_000 * UNIT);
        assert_eq!(world.held(DOT, 1), 4_900 * UNIT);
        assert_eq!(world.last_recovery_regime(), Some(RecoveryRegime::RecoveryBonus));
    });
}

/// A recovery head below par with partial cover: the cover raises the market-side rate, and the
/// final settlement draws it.
#[test]
fn final_recovery_redemption_below_par_settles_with_insurance_cover() {
    build_and_execute(|world| {
        world.register_branch(DOT, PUSD, example_config());

        world.set_price(DOT, rate_pct(4, 1));
        world.open(1, DOT, PUSD, 4_000 * UNIT, 10_000 * UNIT, rate_pct(1, 1_000));
        world.set_price(DOT, rate_pct(2, 1));
        world.enter_final_recovery(DOT, PUSD, 1);
        world.mint_stable(PUSD, insurance_account(PUSD), 1_000 * UNIT);
        world.mint_stable(PUSD, 3, 1_000_000 * UNIT);

        // The shortfall is 2_000 and the cover 1_000, so the market debt is 9_000. A burn of 3_000
        // buys a third of the 4_000 DOT, rounded down.
        assert!(world.redeem(3, DOT, PUSD, 3_000 * UNIT, 0, 4, 0).is_ok());
        let partial = world.last_settlement();
        assert_eq!(partial.figures(), (3_000 * UNIT, 0, 1_333_333));
        assert_eq!(partial.insurance_cover, 0);
        assert_eq!(world.last_recovery_regime(), Some(RecoveryRegime::InsuranceAdjusted));

        // Settling the other market-side debt pays the rest and draws the cover.
        assert!(world.redeem(3, DOT, PUSD, 6_000 * UNIT, 0, 4, 0).is_ok());
        let full = world.last_settlement();
        assert_eq!(full.figures(), (6_000 * UNIT, 0, 4_000 * UNIT - 1_333_333));
        assert_eq!(full.insurance_cover, 1_000 * UNIT);
        assert_eq!(world.vault_status(DOT, PUSD, 1), None, "vault fully settled and closed");
        assert_eq!(world.held(DOT, 1), 0);
        assert_eq!(world.branch_mut(DOT, PUSD).vaults.len(), 0);
    });
}

/// A request beyond the balance honours the quote that the balance can fund.
#[test]
fn a_balance_that_funds_the_quote_honours_it() {
    build_and_execute(|world| {
        world.register_branch(DOT, PUSD, default_branch_config());
        world.open(1, DOT, PUSD, 1_000, 500, rate_pct(5, 100));
        world.mint_stable(PUSD, 3, 640);

        // The vault's whole debt of 501 costs 629, which the balance of 640 covers.
        let quote = world.preview(100_000, 0).expect("quote");
        assert_eq!((quote.debt_cancelled, quote.fee, quote.collateral_out), (501, 128, 400));
        assert!(world.redeem(3, DOT, PUSD, 100_000, 0, 4, 0).is_ok());
        assert_eq!(world.last_settlement().figures(), (501, 128, 400));
        assert_eq!(world.balance(PUSD, 3), 11);
    });
}

#[test]
fn stored_rows_that_contradict_the_policy_are_reported() {
    let mut pallet = Pallet::<AssetId, AccountId>::new(20);
    let mut config = default_redemption_config();
    config.dynamic_fee_floor = rate_pct(1, 100);
    config.dynamic_fee_ceiling = rate_pct(2, 100);
    let at = |inner: FixedU128| RedemptionState { dynamic_fee: inner, last_fee_operation: 10 };

    pallet.states.insert(PUSD, at(rate_pct(1, 100)));
    assert_eq!(pallet.do_try_state(10), Err(TryStateError::StateWithoutConfig));

    pallet.configs.insert(PUSD, config);
    assert_eq!(pallet.do_try_state(10), Ok(()));
    assert_eq!(pallet.do_try_state(9), Err(TryStateError::OperationAheadOfNow));

    pallet.states.insert(PUSD, at(rate_pct(1, 1_000)));
    assert_eq!(pallet.do_try_state(10), Err(TryStateError::FeeBelowFloor));
    pallet.states.insert(PUSD, at(rate_pct(3, 100)));
    assert_eq!(pallet.do_try_state(10), Err(TryStateError::FeeAboveCeiling));

    config.dynamic_fee_decay_period = 0;
    pallet.configs.insert(PUSD, config);
    assert_eq!(pallet.do_try_state(10), Err(TryStateError::InvalidConfig));
    assert_eq!(
        TryStateError::InvalidConfig.message(),
        "stored redemption config fails `is_valid`"
    );
}

#[test]
fn lifecycle_reports_counts_that_contradict_the_stored_policy() {
    let mut pallet = Pallet::<AssetId, AccountId>::new(20);
    let config = Some(default_redemption_config());
    let corrupt = Err(Failure::Dispatch(DispatchError::Corruption));
    assert_eq!(pallet.on_registered(&DOT, &PUSD, 0, config, &ADMIN), corrupt);
    assert_eq!(pallet.on_registered(&DOT, &PUSD, 2, None, &ADMIN), corrupt);
    assert_eq!(pallet.on_deregistered(&DOT, &PUSD, 0), corrupt);

    assert_eq!(pallet.on_registered(&DOT, &PUSD, 1, config, &ADMIN), Ok(()));
    assert_eq!(pallet.on_registered(&DOT, &PUSD, 1, config, &ADMIN), corrupt);
}

#[test]
fn settlement_refuses_credits_that_differ_from_the_order() {
    build_and_execute(|world| {
        world.register_branch(DOT, PUSD, default_branch_config());
        world.open(1, DOT, PUSD, 1_000, 500, rate_pct(5, 100));
        world.mint_stable(PUSD, 3, 1_000);
        let readings = Readings {
            price: world.price(DOT),
            now: world.now(),
            redeemer: world.payable(PUSD, 3),
            fund: world.fund(PUSD),
        };
        let terms = RedemptionTerms { max_stable_to_spend: 223, min_collateral_out: 0 };
        let context = WalkContext {
            redeemer: 3,
            collateral_id: DOT,
            stable_id: PUSD,
            recipient: 4,
            price: rate_pct(5, 4),
        };
        let order = match world.pallet.do_redeem(&world.vaults, DOT, PUSD, &terms, 0, &readings) {
            Ok(RedeemOrder::Ordinary(order)) => order,
            other => panic!("an ordinary order is due, not {other:?}"),
        };
        assert_eq!(order.debit(), 223);
        let short = StableCredit { asset: PUSD, amount: 222 };
        match Pallet::settle_ordinary(&mut world.vaults, &context, &order, short) {
            Err(failure) => assert_eq!(failure, Failure::Dispatch(DispatchError::Corruption)),
            Ok(_) => panic!("a short credit must not settle"),
        }

        // A recovery order whose cover could not be withdrawn, or came in another coin.
        world.set_price(DOT, rate_pct(40, 100));
        world.enter_final_recovery(DOT, PUSD, 1);
        world.mint_stable(PUSD, insurance_account(PUSD), 1_000);
        let readings = Readings {
            price: world.price(DOT),
            fund: world.fund(PUSD),
            ..readings
        };
        let terms = RedemptionTerms { max_stable_to_spend: 900, min_collateral_out: 0 };
        let order = match world.pallet.do_redeem(&world.vaults, DOT, PUSD, &terms, 0, &readings) {
            Ok(RedeemOrder::Recovery(order)) => order,
            other => panic!("a recovery order is due, not {other:?}"),
        };
        assert_eq!((order.plan.debt(), order.plan.insurance_cover()), (400, 101));
        let paid = || StableCredit { asset: PUSD, amount: 400 };
        let vaults = &mut world.vaults;
        let pallet = &mut world.pallet;
        assert_eq!(
            pallet.settle_recovery(vaults, &context, &order, paid(), None),
            refused(Error::InsuranceFundWithdrawFailed)
        );
        let foreign = StableCredit { asset: USDX, amount: 101 };
        assert_eq!(
            pallet.settle_recovery(vaults, &context, &order, paid(), Some(foreign)),
            refused(Error::InsuranceFundWithdrawFailed)
        );
        let short = StableCredit { asset: PUSD, amount: 100 };
        assert_eq!(
            pallet.settle_recovery(vaults, &context, &order, paid(), Some(short)),
            Err(Failure::Dispatch(DispatchError::Corruption))
        );
        let covered = StableCredit { asset: PUSD, amount: 101 };
        assert_eq!(pallet.settle_recovery(vaults, &context, &order, paid(), Some(covered)), Ok(1));
    });
}
