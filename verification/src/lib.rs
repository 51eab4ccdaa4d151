//! Accounting core of the pUSD stablecoin protocol.

pub mod arithmetic;
pub mod balance;
pub mod linked_list;
pub mod primitives;
pub mod redemptions;
pub mod runtime;
pub mod storage;
