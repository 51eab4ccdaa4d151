//! Relay-chain-derived time for parachain runtimes.

use crate::arithmetic::least;
use crate::primitives::Millis;
use vstd::prelude::*;

verus! {

/// A clock that reports the start of the relay parent's slot.
///
/// The block timestamp is pinned to the start of the parachain slot, so with a parachain slot
/// longer than the relay chain slot every block in that slot carries the same timestamp. This clock
/// advances with every relay chain slot instead. Before the first relay chain slot is known it
/// falls back to the block timestamp.
#[derive(Clone, Copy, PartialEq, Eq, Structural, Debug)]
pub struct RelayTimestamp {
    /// Length of a relay chain slot in milliseconds.
    pub relay_chain_slot_duration_millis: u32,
}

impl RelayTimestamp {
    /// Start of a relay chain slot, as far as it is representable.
    pub open spec fn slot_start(self, relay_chain_slot: u64) -> int {
        least(self.relay_chain_slot_duration_millis * relay_chain_slot, u64::MAX as int)
    }

    /// The time, from the relay chain slot if one is known, else from the block timestamp.
    pub fn now(&self, relay_chain_slot: Option<u64>, block_timestamp: Millis) -> (now: Millis)
        ensures
            now == (match relay_chain_slot {
                Some(slot) => self.slot_start(slot),
                None => block_timestamp as int,
            }),
    {
        match relay_chain_slot {
            Some(slot) => {
                match (self.relay_chain_slot_duration_millis as u64).checked_mul(slot) {
                    Some(start) => start,
                    None => u64::MAX,
                }
            },
            None => block_timestamp,
        }
    }
}

/// The clock never decreases while the relay chain advances.
pub proof fn law_relay_time_never_decreases(clock: RelayTimestamp, sooner: u64, later: u64)
    requires
        sooner <= later,
    ensures
        clock.slot_start(sooner) <= clock.slot_start(later),
{
    assert(clock.relay_chain_slot_duration_millis * sooner
        <= clock.relay_chain_slot_duration_millis * later) by (nonlinear_arith)
        requires
            sooner <= later,
    ;
}

/// The clock starts at zero and advances by one slot's length with every relay chain slot, as far as
/// the time is representable; where no slot is known it is the block's.
pub proof fn law_relay_time_advances_by_the_slot(
    clock: RelayTimestamp,
    slot: u64,
    block_timestamp: Millis,
    first: Millis,
    now: Millis,
    next: Millis,
    unknown: Millis,
)
    requires
        slot < u64::MAX,
        call_ensures(RelayTimestamp::now, (&clock, Some(0u64), block_timestamp), first),
        call_ensures(RelayTimestamp::now, (&clock, Some(slot), block_timestamp), now),
        call_ensures(RelayTimestamp::now, (&clock, Some((slot + 1) as u64), block_timestamp), next),
        call_ensures(RelayTimestamp::now, (&clock, None::<u64>, block_timestamp), unknown),
    ensures
        first == 0,
        now + clock.relay_chain_slot_duration_millis <= u64::MAX ==> next == now
            + clock.relay_chain_slot_duration_millis,
        now + clock.relay_chain_slot_duration_millis > u64::MAX ==> next == u64::MAX,
        unknown == block_timestamp,
{
    let d = clock.relay_chain_slot_duration_millis;
    assert(d * (slot + 1) == d * slot + d && d * 0 == 0 && 0 <= d * slot) by (nonlinear_arith);
}

} // verus!
