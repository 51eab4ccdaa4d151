//! A sorted doubly linked list, one list per list id.
//!
//! Each list is kept in priority order, head (highest) to tail (lowest). Items of the same priority
//! go to the tail side of their cluster, so tail-first iteration is last in, first out. Insertion
//! takes a [`types::Position`] hint and repairs a stale one by a bounded walk.

pub mod interface;
pub mod laws;
pub mod list;
pub mod order_laws;
pub mod pallet;
pub mod rows;
pub mod try_state;
pub mod types;
pub mod views;
