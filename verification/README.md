# pusd

The accounting core of the pUSD stablecoin protocol, written and proved in Verus.

- `src/arithmetic.rs`, `src/balance.rs`, `src/storage.rs`: fixed-point and per-million numbers on
  top of `sp_arithmetic`, balance types, and stored rows.
- `src/primitives/`: what the protocol's pallets share. Collateral ratios and recovery pricing,
  debits around the minimum balance, oracle conversion, pallet accounts, and the interfaces of the
  vault engine, the Stability Pool and the supply ledger.
- `src/redemptions/`: redemption of stablecoin against vaults. The dynamic fee curve and its laws,
  ordinary walks, recovery settlement, Stability Pool offsets, and the lifecycle of a policy.
- `src/linked_list/`: sorted lists with hinted insertion and bounded repair.
- `src/runtime/`: what a runtime decides when it wires these together.
- `tests/`: ordinary tests of the library.
- `app/`: FRAME glue. It reads ledgers, clocks and origins, and moves assets as the library decides.

Functions that end a redemption in stages (`do_redeem`, `settle_recovery` or `settle_ordinary`, then
`finalize_ordinary`) leave the movement of stablecoin to the caller. A failure at any stage fails the
whole redemption, and the caller undoes what the earlier stages did.
