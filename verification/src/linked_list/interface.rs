//! Mutation and query surface of sorted lists, for their consumers.

use crate::linked_list::rows::{
    at, gap_position, joined, lemma_rank_is_unique, lemma_splice_row, linked_as,
    unspliced, Nodes, Rows,
};
use crate::linked_list::types::{ItemId, ListError, ListId, Outcome, Position, Priority};
use vstd::prelude::*;

verus! {

/// Authoritative source of the priority of a list's items, for detecting drift of the stored ones.
pub trait PriorityProvider {
    /// Current authoritative priority of an item, or `None` once it should not remain in the list.
    ///
    /// From then on anyone can have the item removed. So an implementation returns `None` only once
    /// its own bookkeeping tolerates that, and treats [`ListError::ItemNotFound`] from a later removal
    /// of its own as "already removed".
    fn priority(&self, list_id: ListId, item: ItemId) -> Option<Priority>;
}

/// Sorted lists, one per list id.
///
/// A hint is a [`Position`], with `None` for an end of the list. A stale hint (a removed neighbour,
/// neighbours no longer adjacent, a drifted priority bracket) is repaired while the budget lasts, and
/// is no error.
pub trait SortedListInterface {
    /// The rows of a list.
    spec fn rows(&self, list_id: ListId) -> Rows;

    /// Longest walk that repairs a hint.
    spec fn budget(&self) -> u32;

    /// Inserts a new item. Returns the steps that the hint's repair took.
    fn insert(&mut self, list_id: ListId, item: ItemId, priority: Priority, hint: Position) -> (inserted:
        Result<u32, ListError>)
        ensures
            old(self).rows(list_id).inserts(
                item,
                priority,
                hint,
                old(self).budget(),
                inserted,
                final(self).rows(list_id),
            ),
            final(self).budget() == old(self).budget(),
            forall|other: ListId|
                other != list_id ==> #[trigger] final(self).rows(other) == old(self).rows(other),
    ;

    /// Removes an item.
    fn remove(&mut self, list_id: ListId, item: ItemId) -> (removed: Result<(), ListError>)
        ensures
            old(self).rows(list_id).removes(
                item,
                match removed {
                    Ok(_) => Ok(old(self).rows(list_id).nodes[item].priority),
                    Err(error) => Err(error),
                },
                final(self).rows(list_id),
            ),
            final(self).budget() == old(self).budget(),
            forall|other: ListId|
                other != list_id ==> #[trigger] final(self).rows(other) == old(self).rows(other),
    ;

    /// Removes the item at the tail. Returns it with its priority, or `None` from an empty list.
    ///
    /// Consumers that insert items of equal priority take them back last in, first out.
    fn pop_tail(&mut self, list_id: ListId) -> (popped: Result<
        Option<(ItemId, Priority)>,
        ListError,
    >)
        ensures
            old(self).rows(list_id).pops(popped, final(self).rows(list_id)),
            final(self).budget() == old(self).budget(),
            forall|other: ListId|
                other != list_id ==> #[trigger] final(self).rows(other) == old(self).rows(other),
    ;

    /// Changes an item's priority, in place where its neighbours still admit it. The outcome tells
    /// which path ran.
    ///
    /// An unchanged priority writes nothing and checks no links, so that it succeeds on rows that a
    /// change would find corrupt.
    fn re_insert(
        &mut self,
        list_id: ListId,
        item: ItemId,
        new_priority: Priority,
        hint: Position,
    ) -> (moving: Result<Outcome, ListError>)
        ensures
            old(self).rows(list_id).moves(
                item,
                new_priority,
                hint,
                old(self).budget(),
                moving,
                final(self).rows(list_id),
            ),
            final(self).budget() == old(self).budget(),
            forall|other: ListId|
                other != list_id ==> #[trigger] final(self).rows(other) == old(self).rows(other),
    ;

    /// The item of the highest priority, or `None` in an empty list.
    fn head(&self, list_id: ListId) -> (head: Option<ItemId>)
        ensures
            head == self.rows(list_id).head(),
    ;

    /// The item of the lowest priority, or `None` in an empty list.
    fn tail(&self, list_id: ListId) -> (tail: Option<ItemId>)
        ensures
            tail == self.rows(list_id).tail(),
    ;

    /// The number of items.
    fn count(&self, list_id: ListId) -> (count: u32)
        ensures
            count == self.rows(list_id).count(),
    ;

    /// Whether the item is in the list.
    fn contains(&self, list_id: ListId, item: ItemId) -> (contained: bool)
        ensures
            contained == self.rows(list_id).nodes.contains_key(item),
    ;

    /// An item's neighbours, if it is in the list.
    fn neighbors(&self, list_id: ListId, item: ItemId) -> (neighbors: Option<Position>)
        ensures
            neighbors == (match self.rows(list_id).node(item) {
                Some(node) => Some(node.1),
                None => None,
            }),
    {
        match self.node(list_id, item) {
            Some((_, position)) => Some(position),
            None => None,
        }
    }

    /// An item's stored priority, if it is in the list.
    fn priority(&self, list_id: ListId, item: ItemId) -> (priority: Option<Priority>)
        ensures
            priority == (match self.rows(list_id).node(item) {
                Some(node) => Some(node.0),
                None => None,
            }),
    {
        match self.node(list_id, item) {
            Some((priority, _)) => Some(priority),
            None => None,
        }
    }

    /// An item's stored priority and neighbours in a single read, if it is in the list.
    fn node(&self, list_id: ListId, item: ItemId) -> (node: Option<(Priority, Position)>)
        ensures
            node == self.rows(list_id).node(item),
    ;

    /// The first `n` items from the tail on, or all where there are fewer.
    fn iter_from_tail(&self, list_id: ListId, n: u32) -> (items: Vec<ItemId>)
        ensures
            items@ == self.rows(list_id).from_tail(n),
    ;

    /// The place where a new item of `priority` belongs. Takes time in the list's length.
    fn find_position(&self, list_id: ListId, priority: Priority) -> (position: Position)
        ensures
            position == self.rows(list_id).scan(priority, None),
            self.rows(list_id).consistent() ==> position == self.rows(list_id).place(priority),
    ;

    /// The place where an item of the list belongs at `new_priority`, among the other items, or
    /// `None` if it is not in the list. Takes time in the list's length.
    fn find_re_insert_position(&self, list_id: ListId, item: ItemId, new_priority: Priority) -> (position:
        Option<Position>)
        ensures
            position == (if self.rows(list_id).nodes.contains_key(item) {
                Some(self.rows(list_id).scan(new_priority, Some(item)))
            } else {
                None
            }),
            self.rows(list_id).consistent() && position is Some ==> position == Some(
                self.rows(list_id).without(item).place(new_priority),
            ),
    ;

    /// Steps that inserting a new item with this hint would take, or one more than the budget where
    /// it would fail. A move takes the item out first: see [`Self::re_insert_steps_needed`].
    fn repair_steps_needed(&self, list_id: ListId, priority: Priority, hint: Position) -> (steps: u32)
        ensures
            self.rows(list_id).tells_insert(priority, hint, self.budget(), steps),
    ;

    /// Steps that moving an item with this hint would take: none where the hint would not be used,
    /// and one more than the budget where the move would fail.
    fn re_insert_steps_needed(
        &self,
        list_id: ListId,
        item: ItemId,
        new_priority: Priority,
        hint: Position,
    ) -> (steps: u32)
        ensures
            self.rows(list_id).tells_move(item, new_priority, hint, self.budget(), steps),
    ;

    /// Longest walk that repairs a hint.
    fn repair_budget(&self) -> (budget: u32)
        ensures
            budget == self.budget(),
    ;
}

/// The priority that an append gives a list's new head: one above the current head's, or zero in an
/// empty list.
pub open spec fn fifo_priority(list: Rows) -> Option<Priority> {
    match list.head() {
        Some(head) => if list.nodes.contains_key(head) && list.nodes[head].priority < u128::MAX {
            Some((list.nodes[head].priority + 1) as u128)
        } else {
            None
        },
        None => Some(0),
    }
}

/// Whether a list's priorities all differ.
pub open spec fn distinct_priorities(list: Rows) -> bool {
    forall|i: int, j: int|
        0 <= i < j < list.order().len() ==> list.nodes[#[trigger] list.order()[i]].priority
            > list.nodes[#[trigger] list.order()[j]].priority
}

/// An append goes before the head, and the head is the hint that needs no repair.
#[verifier::spinoff_prover]
proof fn lemma_append_is_at_the_head(list: Rows, priority: Priority)
    requires
        list.consistent(),
        fifo_priority(list) == Some(priority),
    ensures
        list.rank(priority) == 0,
        list.place(priority) == (Position { prev: None, next: list.head() }),
        list.repair_steps(priority, Position { prev: None, next: list.head() }) == 0,
{
    let order = list.order();
    assert(list.chains(order));
    assert(list.head() == at(order, 0));
    lemma_rank_is_unique(list.nodes, order, priority, 0);
    if order.len() > 0 {
        assert(order.contains(order[0]));
        assert(order.index_of(order[0]) == 0);
    }
    assert(gap_position(order, 0) == (Position { prev: None, next: list.head() }));
}

/// The result of an insertion without the steps that it took.
pub open spec fn stepless(inserted: Result<u32, ListError>) -> Result<(), ListError> {
    match inserted {
        Ok(_) => Ok(()),
        Err(error) => Err(error),
    }
}

/// Whether appending `item` can end with `appended` and the rows `after`.
pub open spec fn appends(
    list: Rows,
    item: ItemId,
    budget: u32,
    appended: Result<(), ListError>,
    after: Rows,
) -> bool {
    match fifo_priority(list) {
        None => appended == Err::<(), ListError>(ListError::CorruptList) && after == list,
        Some(priority) => {
            &&& exists|inserted: Result<u32, ListError>| #[trigger]
                list.inserts(
                    item,
                    priority,
                    Position { prev: None, next: list.head() },
                    budget,
                    inserted,
                    after,
                ) && appended == stepless(inserted)
            &&& list.consistent() ==> if list.nodes.contains_key(item) {
                appended == Err::<(), ListError>(ListError::ItemAlreadyExists)
            } else if list.order().len() >= u32::MAX {
                appended == Err::<(), ListError>(ListError::ListTooLong)
            } else {
                &&& appended == Ok::<(), ListError>(())
                &&& after.chains(seq![item] + list.order())
                &&& after.nodes == joined(
                    list.nodes,
                    item,
                    priority,
                    Position { prev: None, next: list.head() },
                )
            }
        },
    }
}

/// An append is an insertion before the head.
#[verifier::spinoff_prover]
proof fn lemma_append(
    list: Rows,
    item: ItemId,
    priority: Priority,
    budget: u32,
    inserted: Result<u32, ListError>,
    appended: Result<(), ListError>,
    after: Rows,
)
    requires
        appended == stepless(inserted),
        fifo_priority(list) == Some(priority),
        list.inserts(
            item,
            priority,
            Position { prev: None, next: list.head() },
            budget,
            inserted,
            after,
        ),
    ensures
        appends(list, item, budget, appended, after),
{
    assert(exists|inserted: Result<u32, ListError>| #[trigger]
        list.inserts(
            item,
            priority,
            Position { prev: None, next: list.head() },
            budget,
            inserted,
            after,
        ) && appended == stepless(inserted));
    if list.consistent() {
        let hint = Position { prev: None, next: list.head() };
        lemma_append_is_at_the_head(list, priority);
        let with = seq![item] + list.order();
        assert(list.order().insert(0, item) =~= with);
        if !list.nodes.contains_key(item) && list.order().len() < u32::MAX {
            assert(list.repair_steps(priority, hint) <= budget);
            assert(inserted == Ok::<u32, ListError>(0));
            assert(after.chains(list.order().insert(list.rank(priority), item)));
            assert(after.chains(with));
            assert(after == list.with(item, priority, hint));
        }
    }
}

/// Appends an item to a list kept first in, first out: its priority is one above the head's, so it
/// is above every other, and the oldest item is the tail.
///
/// Such a list's stored priorities are authoritative: they never drift. The sequence starts again
/// whenever the list empties.
pub fn fifo_append<List: SortedListInterface>(list: &mut List, list_id: ListId, item: ItemId) -> (appended:
    Result<(), ListError>)
    ensures
        appends(
            old(list).rows(list_id),
            item,
            old(list).budget(),
            appended,
            final(list).rows(list_id),
        ),
        final(list).budget() == old(list).budget(),
        forall|other: ListId|
            other != list_id ==> #[trigger] final(list).rows(other) == old(list).rows(other),
{
    let ghost rows = list.rows(list_id);
    let head = list.head(list_id);
    let priority: Priority = match head {
        Some(head) => match list.priority(list_id, head) {
            Some(priority) => match priority.checked_add(1) {
                Some(next) => next,
                None => {
                    return Err(ListError::CorruptList);
                },
            },
            None => {
                return Err(ListError::CorruptList);
            },
        },
        None => 0,
    };
    let inserted = list.insert(list_id, item, priority, Position { prev: None, next: head });
    let appended = match inserted {
        Ok(_) => Ok(()),
        Err(error) => Err(error),
    };
    proof {
        lemma_append(
            rows,
            item,
            priority,
            old(list).budget(),
            inserted,
            appended,
            list.rows(list_id),
        );
    }
    appended
}

/// A list kept first in, first out keeps its order and its distinct priorities over an append: the
/// new item goes before the others, above them all, and the tail stays the oldest item.
pub proof fn law_append_keeps_first_in_first_out(
    list: Rows,
    item: ItemId,
    budget: u32,
    appended: Result<(), ListError>,
    after: Rows,
)
    requires
        list.consistent(),
        distinct_priorities(list),
        appends(list, item, budget, appended, after),
        appended is Ok,
    ensures
        after.consistent(),
        after.order() == seq![item] + list.order(),
        distinct_priorities(after),
        after.tail() == (if list.order().len() == 0 {
            Some(item)
        } else {
            list.tail()
        }),
        forall|other: ItemId| #[trigger]
            list.nodes.contains_key(other) ==> after.nodes[other].priority
                == list.nodes[other].priority && after.nodes[other].priority
                < after.nodes[item].priority,
{
    let order = list.order();
    let with = seq![item] + order;
    assert(list.chains(order));
    after.lemma_order(with);
    assert forall|other: ItemId| #[trigger] list.nodes.contains_key(other) implies after.nodes[other].priority
        == list.nodes[other].priority && after.nodes[other].priority < after.nodes[item].priority by {
        assert(order.contains(other));
        lemma_appended_row(list.nodes, order, item, fifo_priority(list)->0, other);
    }
    assert forall|i: int, j: int| 0 <= i < j < with.len() implies after.nodes[
        #[trigger] with[i]
    ].priority > after.nodes[#[trigger] with[j]].priority by {
        assert(with[j] == order[j - 1] && list.nodes.contains_key(order[j - 1]));
        if i > 0 {
            assert(with[i] == order[i - 1] && list.nodes.contains_key(order[i - 1]));
            assert(list.nodes[order[i - 1]].priority > list.nodes[order[j - 1]].priority);
        }
    }
    assert(order.len() > 0 ==> with.last() == order.last());
}

/// An append leaves every other priority, below the new one.
#[verifier::spinoff_prover]
proof fn lemma_appended_row(
    nodes: Nodes,
    order: Seq<ItemId>,
    item: ItemId,
    priority: Priority,
    other: ItemId,
)
    requires
        linked_as(nodes, order),
        !nodes.contains_key(item),
        nodes.contains_key(other),
        nodes[order[0]].priority < priority,
    ensures
        ({
            let after = joined(nodes, item, priority, Position { prev: None, next: at(order, 0) });
            &&& after[item].priority == priority
            &&& after[other].priority == nodes[other].priority < priority
        }),
{
    assert(order.contains(other));
    let i = order.index_of(other);
    assert(order[i] == other);
    assert(nodes.contains_key(order[0]));
    if i > 0 {
        assert(nodes[order[0]].priority >= nodes[order[i]].priority);
    }
}

/// Removing an item keeps distinct priorities distinct, so that first in, first out order holds
/// across any joins and leaves.
pub proof fn law_removal_keeps_first_in_first_out(
    list: Rows,
    item: ItemId,
    removed: Result<Priority, ListError>,
    after: Rows,
)
    requires
        list.consistent(),
        distinct_priorities(list),
        list.removes(item, removed, after),
        removed is Ok,
    ensures
        after.consistent(),
        after.order() == list.order().remove(list.order().index_of(item)),
        distinct_priorities(after),
{
    let order = list.order();
    let i = order.index_of(item);
    let rest = order.remove(i);
    assert(list.chains(order));
    after.lemma_order(rest);
    assert forall|k: int, l: int| 0 <= k < l < rest.len() implies after.nodes[
        #[trigger] rest[k]
    ].priority > after.nodes[#[trigger] rest[l]].priority by {
        lemma_splice_row(list.nodes, order, i, k);
        lemma_splice_row(list.nodes, order, i, l);
        assert(list.nodes[order[unspliced(i, k)]].priority > list.nodes[order[unspliced(
            i,
            l,
        )]].priority);
    }
}

/// An append gives the new head a priority one above the head's, or zero in an empty list, and is
/// refused as a corruption where there is no priority above the head's. It fails for nothing but an
/// item that is in the list already or a list that is full.
#[verifier::spinoff_prover]
pub proof fn law_append_is_one_above_the_head(
    list: Rows,
    item: ItemId,
    budget: u32,
    appended: Result<(), ListError>,
    after: Rows,
)
    requires
        list.consistent(),
        appends(list, item, budget, appended, after),
    ensures
        ({
            let order = list.order();
            let full = order.len() > 0 && list.nodes[order[0]].priority == u128::MAX;
            &&& full ==> appended == Err::<(), ListError>(ListError::CorruptList)
            &&& !full && list.nodes.contains_key(item) ==> appended == Err::<(), ListError>(
                ListError::ItemAlreadyExists,
            )
            &&& !full && !list.nodes.contains_key(item) && order.len() == u32::MAX ==> appended
                == Err::<(), ListError>(ListError::ListTooLong)
            &&& !full && !list.nodes.contains_key(item) && order.len() < u32::MAX ==> {
                &&& appended == Ok::<(), ListError>(())
                &&& after.order() == seq![item] + order
                &&& order.len() == 0 ==> after.nodes[item].priority == 0
                &&& order.len() > 0 ==> after.nodes[item].priority == list.nodes[order[0]].priority
                    + 1
            }
            &&& appended is Err ==> after == list
        }),
{
    let order = list.order();
    assert(list.chains(order));
    lemma_failed_append(list, item, budget, appended, after);
    lemma_head_of_a_list(list, order);
    if let Some(priority) = fifo_priority(list) {
        if !list.nodes.contains_key(item) && order.len() < u32::MAX {
            after.lemma_order(seq![item] + order);
            lemma_joined_before(list.nodes, item, priority, list.head());
        }
    }
}

/// The head of a list is its first item.
proof fn lemma_head_of_a_list(list: Rows, order: Seq<ItemId>)
    requires
        list.chains(order),
    ensures
        order.len() == 0 ==> list.head() is None,
        order.len() > 0 ==> list.head() == Some(order[0]) && list.nodes.contains_key(order[0]),
{
}

/// An item that is put in before the head has its priority.
proof fn lemma_joined_before(nodes: Nodes, item: ItemId, priority: Priority, head: Option<ItemId>)
    requires
        head != Some(item),
    ensures
        joined(nodes, item, priority, Position { prev: None, next: head })[item].priority
            == priority,
{
}

/// An append that fails leaves the rows as they were.
proof fn lemma_failed_append(
    list: Rows,
    item: ItemId,
    budget: u32,
    appended: Result<(), ListError>,
    after: Rows,
)
    requires
        appends(list, item, budget, appended, after),
    ensures
        appended is Err ==> after == list,
{
    if let Some(priority) = fifo_priority(list) {
        let hint = Position { prev: None, next: list.head() };
        let inserted = choose|inserted: Result<u32, ListError>| #[trigger]
            list.inserts(item, priority, hint, budget, inserted, after) && appended == stepless(
                inserted,
            );
        assert((inserted, after) == list.inserted(item, priority, hint, budget));
    }
}

} // verus!
