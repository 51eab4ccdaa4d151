//! One sorted list.

use crate::linked_list::rows::{
    admits, anchored_links, insertable, led_to, lemma_join, lemma_rank, lemma_reprice,
    lemma_right_place_is_insertable, lemma_splice, removable, walked, Rows,
};
use crate::linked_list::types::{ItemId, ListError, ListMeta, Node, Outcome, Position, Priority};
use crate::storage::StorageMap;
use vstd::prelude::*;

verus! {

/// A sorted list.
#[derive(Debug)]
pub struct SortedList {
    /// The items' rows.
    pub nodes: StorageMap<Node>,
    /// The list's own row.
    pub meta: Option<ListMeta>,
}

impl SortedList {
    /// The list's rows.
    pub open spec fn rows(self) -> Rows {
        Rows { nodes: self.nodes@, meta: self.meta }
    }

    /// A list without items.
    pub fn new() -> (list: SortedList)
        ensures
            list.rows() == Rows::none(),
    {
        SortedList { nodes: StorageMap::new(), meta: None }
    }

    /// Reads the rows of a place's neighbours. A named neighbour without a row is corruption.
    fn neighbor_rows(&self, position: Position) -> (rows: Option<(Option<Node>, Option<Node>)>)
        ensures
            rows == (if (position.prev matches Some(prev) && !self.nodes@.contains_key(prev)) || (
            position.next matches Some(next) && !self.nodes@.contains_key(next)) {
                None
            } else {
                Some(
                    (
                        match position.prev {
                            Some(prev) => Some(self.nodes@[prev]),
                            None => None,
                        },
                        match position.next {
                            Some(next) => Some(self.nodes@[next]),
                            None => None,
                        },
                    ),
                )
            }),
    {
        let prev = match position.prev {
            Some(item) => match self.nodes.get(item) {
                Some(node) => Some(node),
                None => {
                    return None;
                },
            },
            None => None,
        };
        let next = match position.next {
            Some(item) => match self.nodes.get(item) {
                Some(node) => Some(node),
                None => {
                    return None;
                },
            },
            None => None,
        };
        Some((prev, next))
    }

    /// The gap that a hint leads to.
    fn anchored(&self, hint: Position) -> (position: Position)
        ensures
            position == led_to(self.nodes@, self.meta, hint),
    {
        let head = match self.meta {
            Some(meta) => meta.head,
            None => None,
        };
        let start = Position { prev: None, next: head };
        match hint.prev {
            Some(prev) => match self.nodes.get(prev) {
                Some(node) => Position { prev: Some(prev), next: node.next },
                None => start,
            },
            None => match hint.next {
                Some(next) => match self.nodes.get(next) {
                    Some(node) => Position { prev: node.prev, next: Some(next) },
                    None => start,
                },
                None => start,
            },
        }
    }

    /// Walks from a hint to the place where an item of `priority` belongs.
    ///
    /// A hint that names the two neighbours of a gap starts the walk there; any other costs one
    /// step, and starts it beside the neighbour that is still in the list, or at the head. Each node
    /// crossed is one more step. The walk gives up beyond `budget` steps, so that under a budget of
    /// zero any hint but the right place fails at once.
    #[verifier::spinoff_prover]
    pub fn walk_repair(&self, priority: Priority, hint: Position, budget: u32) -> (walk: Result<
        (Position, u32),
        ListError,
    >)
        ensures
            walk == self.rows().repaired(priority, hint, budget),
    {
        let mut position = self.anchored(hint);
        let mut steps: u32 = if position == hint {
            0
        } else {
            1
        };
        if steps > budget {
            return Err(ListError::InvalidPositionHints);
        }
        loop
            invariant
                steps <= budget,
                self.rows().repaired(priority, hint, budget) == walked(
                    self.nodes@,
                    priority,
                    position,
                    steps,
                    budget,
                ),
            decreases budget - steps,
        {
            let (prev, next) = match self.neighbor_rows(position) {
                Some(rows) => rows,
                None => {
                    return Err(ListError::CorruptList);
                },
            };
            if Self::neighbor_priorities_admit(priority, prev, next) {
                return Ok((position, steps));
            }
            if steps >= budget {
                return Err(ListError::InvalidPositionHints);
            }
            steps = steps + 1;
            let headward = match prev {
                Some(node) => node.priority < priority,
                None => false,
            };
            if headward {
                position =
                Position {
                    prev: match prev {
                        Some(node) => node.prev,
                        None => None,
                    },
                    next: position.prev,
                };
            } else {
                position =
                Position {
                    prev: position.next,
                    next: match next {
                        Some(node) => node.next,
                        None => None,
                    },
                };
            }
        }
    }

    /// Whether an item's row, its neighbours' rows and the list's row agree on where it stands.
    pub fn validate_node_links(&self, item: ItemId) -> (agree: bool)
        requires
            self.nodes@.contains_key(item),
        ensures
            agree == anchored_links(self.nodes@, self.meta, item),
    {
        let position = match self.nodes.get(item) {
            Some(node) => node.into_position(),
            None => {
                return false;
            },
        };
        let (prev, next) = match self.neighbor_rows(position) {
            Some(rows) => rows,
            None => {
                return false;
            },
        };
        if position.prev == Some(item) || position.next == Some(item) {
            return false;
        }
        if position.prev.is_some() && position.prev == position.next {
            return false;
        }
        let headward = match prev {
            Some(node) => node.next == Some(item),
            None => match self.meta {
                Some(meta) => meta.head == Some(item),
                None => false,
            },
        };
        let tailward = match next {
            Some(node) => node.prev == Some(item),
            None => match self.meta {
                Some(meta) => meta.tail == Some(item),
                None => false,
            },
        };
        headward && tailward
    }

    /// Whether the rows of two neighbours let an item of `priority` stand between them.
    pub fn neighbor_priorities_admit(
        priority: Priority,
        prev: Option<Node>,
        next: Option<Node>,
    ) -> (admitted: bool)
        ensures
            admitted == admits(priority, prev, next),
    {
        let headward = match prev {
            Some(node) => node.priority >= priority,
            None => true,
        };
        let tailward = match next {
            Some(node) => priority > node.priority,
            None => true,
        };
        headward && tailward
    }

    /// Takes an item out, and links its neighbours to each other. Returns the item's row.
    pub fn remove_at(&mut self, item: ItemId) -> (removed: Result<Node, ListError>)
        ensures
            old(self).rows().removes(
                item,
                match removed {
                    Ok(node) => Ok(node.priority),
                    Err(error) => Err(error),
                },
                final(self).rows(),
            ),
            removed matches Ok(node) ==> node == old(self).nodes@[item],
    {
        proof {
            if self.rows().consistent() {
                let order = self.rows().order();
                assert(self.rows().chains(order));
                if order.contains(item) {
                    let i = order.index_of(item);
                    assert(order[i] == item);
                    assert(self.nodes@.contains_key(order[i]));
                    lemma_splice(self.nodes@, self.meta, order, i);
                }
            }
        }
        let node = match self.nodes.get(item) {
            Some(node) => node,
            None => {
                return Err(ListError::ItemNotFound);
            },
        };
        if !self.validate_node_links(item) {
            return Err(ListError::CorruptList);
        }
        let meta = match self.meta {
            Some(meta) => meta,
            None => {
                return Err(ListError::CorruptList);
            },
        };
        let alone = node.prev.is_none() && node.next.is_none();
        if meta.len == 0 || (meta.len == 1) != alone {
            return Err(ListError::CorruptList);
        }
        let (prev_row, next_row) = match self.neighbor_rows(node.into_position()) {
            Some(rows) => rows,
            None => {
                return Err(ListError::CorruptList);
            },
        };
        self.nodes.remove(item);
        if let (Some(prev), Some(row)) = (node.prev, prev_row) {
            self.nodes.insert(prev, Node { next: node.next, ..row });
        }
        if let (Some(next), Some(row)) = (node.next, next_row) {
            self.nodes.insert(next, Node { prev: node.prev, ..row });
        }
        self.meta =
        if meta.len == 1 {
            None
        } else {
            Some(
                ListMeta {
                    head: if node.prev.is_none() {
                        node.next
                    } else {
                        meta.head
                    },
                    tail: if node.next.is_none() {
                        node.prev
                    } else {
                        meta.tail
                    },
                    len: meta.len - 1,
                },
            )
        };
        assert(self.rows() == old(self).rows().without(item));
        Ok(node)
    }

    /// Puts an item in at `position`.
    ///
    /// A place whose neighbours are not adjacent, or do not admit the priority, is corruption: the
    /// places that a walk finds are none of these.
    pub fn insert_at_inner(&mut self, item: ItemId, priority: Priority, position: Position) -> (put_in:
        Result<(), ListError>)
        requires
            !old(self).nodes@.contains_key(item),
        ensures
            ({
                if old(self).meta matches Some(meta) && meta.len == u32::MAX {
                    &&& put_in == Err::<(), ListError>(ListError::ListTooLong)
                    &&& final(self).rows() == old(self).rows()
                } else if !insertable(old(self).nodes@, old(self).meta, priority, position) {
                    &&& put_in == Err::<(), ListError>(ListError::CorruptList)
                    &&& final(self).rows() == old(self).rows()
                } else {
                    &&& put_in == Ok::<(), ListError>(())
                    &&& final(self).rows() == old(self).rows().with(item, priority, position)
                }
            }),
            old(self).rows().consistent() && position == old(self).rows().place(priority) ==> {
                let order = old(self).rows().order();
                &&& put_in is Ok == (order.len() < u32::MAX)
                &&& put_in is Ok ==> final(self).rows().chains(
                    order.insert(old(self).rows().rank(priority), item),
                )
            },
    {
        proof {
            if self.rows().consistent() && position == self.rows().place(priority) {
                let order = self.rows().order();
                assert(self.rows().chains(order));
                lemma_right_place_is_insertable(self.nodes@, self.meta, order, priority);
                if order.len() < u32::MAX {
                    lemma_join(
                        self.nodes@,
                        self.meta,
                        order,
                        item,
                        priority,
                        self.rows().rank(priority),
                    );
                }
            }
        }
        if let Some(meta) = self.meta {
            if meta.len == u32::MAX {
                return Err(ListError::ListTooLong);
            }
        }
        let (prev_row, next_row) = match self.neighbor_rows(position) {
            Some(rows) => rows,
            None => {
                return Err(ListError::CorruptList);
            },
        };
        let ends = position.prev.is_none() && position.next.is_none();
        let fits = match self.meta {
            None => ends,
            Some(meta) => {
                let headward = match prev_row {
                    Some(row) => row.next == position.next,
                    None => meta.head == position.next,
                };
                let tailward = match next_row {
                    Some(row) => row.prev == position.prev,
                    None => meta.tail == position.prev,
                };
                meta.len > 0 && !ends && headward && tailward && Self::neighbor_priorities_admit(
                    priority,
                    prev_row,
                    next_row,
                )
            },
        };
        if !fits {
            return Err(ListError::CorruptList);
        }
        self.nodes.insert(item, Node { priority, prev: position.prev, next: position.next });
        if let (Some(prev), Some(row)) = (position.prev, prev_row) {
            self.nodes.insert(prev, Node { next: Some(item), ..row });
        }
        if let (Some(next), Some(row)) = (position.next, next_row) {
            self.nodes.insert(next, Node { prev: Some(item), ..row });
        }
        self.meta =
        match self.meta {
            None => Some(ListMeta { head: Some(item), tail: Some(item), len: 1 }),
            Some(meta) => Some(
                ListMeta {
                    head: if position.prev.is_none() {
                        Some(item)
                    } else {
                        meta.head
                    },
                    tail: if position.next.is_none() {
                        Some(item)
                    } else {
                        meta.tail
                    },
                    len: meta.len + 1,
                },
            ),
        };
        assert(self.rows() == old(self).rows().with(item, priority, position));
        Ok(())
    }

    /// Puts a new item in where its priority belongs, repairing the hint within `budget` steps.
    /// Returns the steps taken.
    #[verifier::spinoff_prover]
    pub fn insert(&mut self, item: ItemId, priority: Priority, hint: Position, budget: u32) -> (inserted:
        Result<u32, ListError>)
        ensures
            old(self).rows().inserts(item, priority, hint, budget, inserted, final(self).rows()),
    {
        if self.nodes.contains_key(item) {
            return Err(ListError::ItemAlreadyExists);
        }
        proof {
            if self.rows().consistent() {
                assert(self.rows().chains(self.rows().order()));
                self.rows().lemma_repaired_on_a_list(priority, hint, budget);
            }
        }
        let (position, steps) = match self.walk_repair(priority, hint, budget) {
            Ok(walk) => walk,
            Err(error) => {
                return Err(error);
            },
        };
        if let Err(error) = self.insert_at_inner(item, priority, position) {
            return Err(error);
        }
        Ok(steps)
    }

    /// Removes the item at the tail. Returns the item and its priority, or `None` from an empty list.
    pub fn pop_tail(&mut self) -> (popped: Result<Option<(ItemId, Priority)>, ListError>)
        ensures
            old(self).rows().pops(popped, final(self).rows()),
    {
        proof {
            if self.rows().consistent() {
                let order = self.rows().order();
                assert(self.rows().chains(order));
                if order.len() > 0 {
                    assert(order.contains(order.last()));
                    assert(order.index_of(order.last()) == order.len() - 1);
                    assert(self.nodes@.contains_key(order.last()));
                    assert(order.remove(order.len() - 1) =~= order.drop_last());
                }
            }
        }
        let meta = match self.meta {
            Some(meta) => meta,
            None => {
                return Ok(None);
            },
        };
        let item = match meta.tail {
            Some(tail) => tail,
            None => {
                return Err(ListError::CorruptList);
            },
        };
        match self.remove_at(item) {
            Ok(node) => Ok(Some((item, node.priority))),
            Err(_) => Err(ListError::CorruptList),
        }
    }

    /// Changes an item's priority: not at all if it is the stored one, where the item stands if its
    /// neighbours still admit it, else by taking the item out and putting it in again, repairing the
    /// hint within `budget` steps. A failure leaves the rows as they were.
    pub fn re_insert(&mut self, item: ItemId, priority: Priority, hint: Position, budget: u32) -> (moving:
        Result<Outcome, ListError>)
        ensures
            old(self).rows().moves(item, priority, hint, budget, moving, final(self).rows()),
    {
        let ghost order = self.rows().order();
        let ghost i = order.index_of(item);
        let ghost chained = self.rows().consistent() && self.nodes@.contains_key(item);
        proof {
            if chained {
                assert(self.rows().chains(order));
                assert(order.contains(item));
                assert(order[i] == item);
            }
        }
        let node = match self.nodes.get(item) {
            Some(node) => node,
            None => {
                return Err(ListError::ItemNotFound);
            },
        };
        if node.priority == priority {
            return Ok(Outcome::NoOp);
        }
        if !self.validate_node_links(item) {
            return Err(ListError::CorruptList);
        }
        let (prev_row, next_row) = match self.neighbor_rows(node.into_position()) {
            Some(rows) => rows,
            None => {
                return Err(ListError::CorruptList);
            },
        };
        if Self::neighbor_priorities_admit(priority, prev_row, next_row) {
            self.nodes.insert(item, Node { priority, ..node });
            proof {
                if chained {
                    lemma_reprice(old(self).nodes@, order, i, priority);
                }
            }
            return Ok(Outcome::InPlace);
        }
        let meta = self.meta;
        let moving = self.relocate(item, priority, hint, budget);
        match moving {
            Ok(steps) => Ok(Outcome::Relocated { steps }),
            Err((error, taken_out)) => {
                if taken_out {
                    self.nodes.insert(item, node);
                    if let (Some(prev), Some(row)) = (node.prev, prev_row) {
                        self.nodes.insert(prev, row);
                    }
                    if let (Some(next), Some(row)) = (node.next, next_row) {
                        self.nodes.insert(next, row);
                    }
                    self.meta = meta;
                    assert(self.nodes@ =~= old(self).nodes@);
                }
                Err(error)
            },
        }
    }

    /// Takes an item out and puts it in again where `priority` belongs. A failure says whether it
    /// left the item taken out.
    fn relocate(&mut self, item: ItemId, priority: Priority, hint: Position, budget: u32) -> (moving:
        Result<u32, (ListError, bool)>)
        requires
            old(self).nodes@.contains_key(item),
            anchored_links(old(self).nodes@, old(self).meta, item),
        ensures
            if !removable(old(self).nodes@, old(self).meta, item) {
                &&& moving == Err::<u32, (ListError, bool)>((ListError::CorruptList, false))
                &&& final(self).rows() == old(self).rows()
            } else {
                let rest = old(self).rows().without(item);
                &&& match moving {
                    Ok(steps) => (Ok::<u32, ListError>(steps), final(self).rows()) == rest.inserted(
                        item,
                        priority,
                        hint,
                        budget,
                    ),
                    Err((error, taken_out)) => {
                        &&& taken_out
                        &&& rest.inserted(item, priority, hint, budget).0 == Err::<u32, ListError>(
                            error,
                        )
                        &&& final(self).rows() == rest
                    },
                }
            },
            old(self).rows().consistent() ==> {
                let order = old(self).rows().order();
                let rest = old(self).rows().without(item);
                let steps = rest.repair_steps(priority, hint);
                if steps > budget {
                    moving matches Err(failure) && failure.0 == ListError::InvalidPositionHints
                } else {
                    &&& moving == Ok::<u32, (ListError, bool)>(steps as u32)
                    &&& final(self).rows() == rest.with(item, priority, rest.place(priority))
                    &&& rest.chains(order.remove(order.index_of(item)))
                    &&& final(self).rows().chains(rest.order().insert(rest.rank(priority), item))
                }
            },
    {
        let ghost order = self.rows().order();
        proof {
            if self.rows().consistent() {
                assert(self.rows().chains(order));
                assert(order.contains(item));
            }
        }
        if let Err(error) = self.remove_at(item) {
            return Err((error, false));
        }
        proof {
            if old(self).rows().consistent() {
                self.rows().lemma_order(order.remove(order.index_of(item)));
                lemma_rank(self.nodes@, self.rows().order(), priority);
                self.rows().lemma_repaired_on_a_list(priority, hint, budget);
            }
        }
        assert(!self.nodes@.contains_key(item));
        let (position, steps) = match self.walk_repair(priority, hint, budget) {
            Ok(walk) => walk,
            Err(error) => {
                return Err((error, true));
            },
        };
        if let Err(error) = self.insert_at_inner(item, priority, position) {
            return Err((error, true));
        }
        Ok(steps)
    }
}

} // verus!
