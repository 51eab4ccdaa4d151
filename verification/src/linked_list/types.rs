//! Rows, hints and results of sorted lists.

use vstd::prelude::*;

verus! {

/// Identifier of a list.
pub type ListId = u64;

/// Identifier of an item within a list.
pub type ItemId = u64;

/// Sort key. Higher priorities sit near the head, lower ones near the tail.
pub type Priority = u128;

/// Neighbours of a place in a list, with `None` for the end of the list.
#[derive(Clone, Copy, PartialEq, Eq, Structural, Debug)]
pub struct Position {
    /// Neighbour on the head side.
    pub prev: Option<ItemId>,
    /// Neighbour on the tail side.
    pub next: Option<ItemId>,
}

impl Position {
    /// The place in an empty list.
    pub fn endpoints_only() -> (position: Position)
        ensures
            position == (Position { prev: None, next: None }),
    {
        Position { prev: None, next: None }
    }

    /// The place before the head.
    pub fn at_head(head: ItemId) -> (position: Position)
        ensures
            position == (Position { prev: None, next: Some(head) }),
    {
        Position { prev: None, next: Some(head) }
    }

    /// The place after the tail.
    pub fn at_tail(tail: ItemId) -> (position: Position)
        ensures
            position == (Position { prev: Some(tail), next: None }),
    {
        Position { prev: Some(tail), next: None }
    }

    /// The place between two neighbours.
    pub fn between(prev: ItemId, next: ItemId) -> (position: Position)
        ensures
            position == (Position { prev: Some(prev), next: Some(next) }),
    {
        Position { prev: Some(prev), next: Some(next) }
    }
}

/// Failure of a list operation.
#[derive(Clone, Copy, PartialEq, Eq, Structural, Debug)]
pub enum ListError {
    /// The item is already in the list.
    ItemAlreadyExists,
    /// The item is not in the list.
    ItemNotFound,
    /// The list's size counter would overflow.
    ListTooLong,
    /// The hint cannot be repaired within the budget.
    InvalidPositionHints,
    /// Stored rows contradict each other.
    CorruptList,
    /// The environment of the list kept an operation from running.
    Internal,
}

/// Which path a repositioning took.
#[derive(Clone, Copy, PartialEq, Eq, Structural, Debug)]
pub enum Outcome {
    /// The priority was the stored one.
    NoOp,
    /// The priority was changed where the item stands.
    InPlace,
    /// The item was moved.
    Relocated {
        /// Steps that the hint's repair took.
        steps: u32,
    },
}

/// An item's row.
#[derive(Clone, Copy, PartialEq, Eq, Structural, Debug)]
pub struct Node {
    /// Sort key of the item.
    pub priority: Priority,
    /// Neighbour on the head side.
    pub prev: Option<ItemId>,
    /// Neighbour on the tail side.
    pub next: Option<ItemId>,
}

impl Node {
    /// The item's place.
    pub fn into_position(self) -> (position: Position)
        ensures
            position == (Position { prev: self.prev, next: self.next }),
    {
        Position { prev: self.prev, next: self.next }
    }
}

/// A list's own row. It exists exactly while the list has items.
#[derive(Clone, Copy, PartialEq, Eq, Structural, Debug)]
pub struct ListMeta {
    /// Item of the highest priority.
    pub head: Option<ItemId>,
    /// Item of the lowest priority.
    pub tail: Option<ItemId>,
    /// Number of items in the list.
    pub len: u32,
}

} // verus!
