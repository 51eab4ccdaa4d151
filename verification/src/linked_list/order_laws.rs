//! What operations make of a list, stated on its items, their order and their priorities.

use crate::linked_list::interface::SortedListInterface;
use crate::linked_list::laws::{law_move_keeps_a_list, lemma_walk_is_within_budget};
use crate::linked_list::pallet::{
    insert_events, move_events, remove_events, Event, Pallet, ReprioritizeError,
    ReprioritizeWeight,
};
use crate::linked_list::rows::{
    anchor, at, before, gap_position, insertable, joined, led_to, lemma_item_is_anchored,
    lemma_rank, lemma_rank_is_unique, lemma_splice, spliced, Nodes, Rows,
};
use crate::linked_list::try_state::{violation, Violation};
use crate::linked_list::types::{
    ItemId, ListError, ListId, ListMeta, Outcome, Position, Priority,
};
use crate::linked_list::views::law_tail_first_is_the_order_reversed;
use vstd::prelude::*;

verus! {

/// The rows of a list chain each of its items once, to the item before and the one behind it, in an
/// order in which priorities never rise, and its own row names the ends and counts the items; a list
/// without items has no row of its own.
pub proof fn law_rows_of_a_list(list: Rows)
    requires
        list.consistent(),
    ensures
        ({
            let order = list.order();
            let last = order.len() - 1;
            &&& forall|i: int, j: int|
                0 <= i < j < order.len() ==> #[trigger] order[i] != #[trigger] order[j]
            &&& forall|item: ItemId| #[trigger]
                list.nodes.contains_key(item) <==> order.contains(item)
            &&& forall|i: int|
                0 <= i < order.len() ==> (#[trigger] list.nodes[order[i]]).prev == (if i == 0 {
                    None
                } else {
                    Some(order[i - 1])
                })
            &&& forall|i: int|
                0 <= i < order.len() ==> (#[trigger] list.nodes[order[i]]).next == (if i == last {
                    None
                } else {
                    Some(order[i + 1])
                })
            &&& forall|i: int, j: int|
                0 <= i < j < order.len() ==> (#[trigger] list.nodes[order[i]]).priority >= (
                #[trigger] list.nodes[order[j]]).priority
            &&& order.len() == 0 ==> list.meta is None
            &&& order.len() > 0 ==> list.meta == Some(
                ListMeta {
                    head: Some(order[0]),
                    tail: Some(order[last]),
                    len: order.len() as u32,
                },
            )
            &&& order.len() <= u32::MAX
        }),
{
    let order = list.order();
    assert(list.chains(order));
    assert forall|item: ItemId| #[trigger] list.nodes.contains_key(item) <==> order.contains(
        item,
    ) by {
        if order.contains(item) {
            assert(list.nodes.contains_key(order[order.index_of(item)]));
        }
    }
    assert forall|i: int| 0 <= i < order.len() implies (#[trigger] list.nodes[order[i]]).prev == (
    if i == 0 {
        None
    } else {
        Some(order[i - 1])
    }) by {
        assert(list.nodes[order[i]].prev == before(order, i));
    }
    assert forall|i: int| 0 <= i < order.len() implies (#[trigger] list.nodes[order[i]]).next == (
    if i == order.len() - 1 {
        None
    } else {
        Some(order[i + 1])
    }) by {
        assert(list.nodes[order[i]].next == at(order, i + 1));
    }
}

/// What putting an item in between others does to priorities.
proof fn lemma_joined_priorities(
    nodes: Nodes,
    item: ItemId,
    priority: Priority,
    position: Position,
    other: ItemId,
)
    requires
        position.prev matches Some(prev) ==> nodes.contains_key(prev) && prev != item,
        position.next matches Some(next) ==> nodes.contains_key(next) && next != item,
    ensures
        ({
            let after = joined(nodes, item, priority, position);
            &&& after.contains_key(item)
            &&& after[item].priority == priority
            &&& other != item ==> after.contains_key(other) == nodes.contains_key(other)
            &&& other != item && nodes.contains_key(other) ==> after[other].priority
                == nodes[other].priority
        }),
{
}

/// The neighbours of the place where a new item belongs are items of the list.
proof fn lemma_place_is_in_the_list(list: Rows, order: Seq<ItemId>, item: ItemId, priority: Priority)
    requires
        list.chains(order),
        order == list.order(),
        !list.nodes.contains_key(item),
    ensures
        list.place(priority).prev matches Some(prev) ==> list.nodes.contains_key(prev) && prev
            != item,
        list.place(priority).next matches Some(next) ==> list.nodes.contains_key(next) && next
            != item,
{
    lemma_rank(list.nodes, order, priority);
    let gap = list.rank(priority);
    if gap > 0 {
        assert(list.nodes.contains_key(order[gap - 1]));
    }
    if gap < order.len() {
        assert(list.nodes.contains_key(order[gap]));
    }
}

/// An inserted item gets its priority, and every other item keeps its own; an item that is in the
/// list already is refused, and no other reason but the hint or the list's length refuses one.
pub proof fn law_insertion_keeps_priorities(
    list: Rows,
    item: ItemId,
    priority: Priority,
    hint: Position,
    budget: u32,
    inserted: Result<u32, ListError>,
    after: Rows,
    other: ItemId,
)
    requires
        list.consistent(),
        list.inserts(item, priority, hint, budget, inserted, after),
    ensures
        list.nodes.contains_key(item) <==> inserted == Err::<u32, ListError>(
            ListError::ItemAlreadyExists,
        ),
        inserted is Err ==> after == list,
        inserted matches Err(error) ==> {
            ||| error == ListError::ItemAlreadyExists
            ||| error == ListError::InvalidPositionHints
            ||| error == ListError::ListTooLong && list.order().len() == u32::MAX
        },
        inserted is Ok ==> {
            &&& after.nodes.contains_key(item)
            &&& after.nodes[item].priority == priority
            &&& other != item ==> after.nodes.contains_key(other) == list.nodes.contains_key(other)
            &&& list.nodes.contains_key(other) ==> after.nodes[other].priority
                == list.nodes[other].priority
        },
{
    let order = list.order();
    assert(list.chains(order));
    if !list.nodes.contains_key(item) {
        lemma_place_is_in_the_list(list, order, item, priority);
        lemma_joined_priorities(list.nodes, item, priority, list.place(priority), other);
    }
}

/// A hint that names the two neighbours of a gap is repaired in as many steps as items lie between
/// that gap and the right place. A hint that goes by one neighbour, or by none, because the other is
/// not beside it, costs a step more from there; one whose neighbour is not in the list, or that names
/// none, counts from the head.
///
/// The insertion takes exactly those steps, and fails for its hint exactly where they are more than
/// the budget.
pub proof fn law_hint_costs_its_distance(
    list: Rows,
    item: ItemId,
    priority: Priority,
    hint: Position,
    budget: u32,
    inserted: Result<u32, ListError>,
    after: Rows,
    from: int,
    to: int,
)
    requires
        list.consistent(),
        !list.nodes.contains_key(item),
        list.order().len() < u32::MAX,
        list.inserts(item, priority, hint, budget, inserted, after),
        0 <= from <= list.order().len(),
        0 <= to <= list.order().len(),
        forall|i: int|
            0 <= i < list.order().len() ==> (list.nodes[#[trigger] list.order()[i]].priority
                >= priority <==> i < to),
        ({
            let order = list.order();
            match (hint.prev, hint.next) {
                (Some(prev), _) => if list.nodes.contains_key(prev) {
                    from > 0 && order[from - 1] == prev
                } else {
                    from == 0
                },
                (None, Some(next)) => if list.nodes.contains_key(next) {
                    from < order.len() && order[from] == next
                } else {
                    from == 0
                },
                (None, None) => from == 0,
            }
        }),
    ensures
        ({
            let order = list.order();
            let exact = hint.prev == (if from == 0 {
                None
            } else {
                Some(order[from - 1])
            }) && hint.next == (if from == order.len() {
                None
            } else {
                Some(order[from])
            });
            let crossed = if from <= to {
                to - from
            } else {
                from - to
            };
            let steps = crossed + (if exact {
                0int
            } else {
                1int
            });
            &&& steps <= budget ==> inserted == Ok::<u32, ListError>(steps as u32)
            &&& steps > budget ==> inserted == Err::<u32, ListError>(
                ListError::InvalidPositionHints,
            )
        }),
{
    let order = list.order();
    assert(list.chains(order));
    lemma_rank(list.nodes, order, priority);
    lemma_rank_is_unique(list.nodes, order, priority, to);
    assert(anchor(order, hint) == from) by {
        if let Some(prev) = hint.prev {
            if list.nodes.contains_key(prev) {
                assert(order.contains(prev));
                assert(order[order.index_of(prev)] == prev);
            } else if order.contains(prev) {
                assert(list.nodes.contains_key(order[order.index_of(prev)]));
            }
        } else if let Some(next) = hint.next {
            if list.nodes.contains_key(next) {
                assert(order.contains(next));
                assert(order[order.index_of(next)] == next);
            } else if order.contains(next) {
                assert(list.nodes.contains_key(order[order.index_of(next)]));
            }
        }
    }
    assert(gap_position(order, from) == (Position {
        prev: before(order, from),
        next: at(order, from),
    }));
}

/// A removed item is gone with the priority that it had, and every other item keeps its own; only an
/// item that is not in the list is not found.
pub proof fn law_removal_keeps_priorities(
    list: Rows,
    item: ItemId,
    removed: Result<Priority, ListError>,
    after: Rows,
    other: ItemId,
)
    requires
        list.consistent(),
        list.removes(item, removed, after),
    ensures
        list.nodes.contains_key(item) ==> removed == Ok::<Priority, ListError>(
            list.nodes[item].priority,
        ),
        !list.nodes.contains_key(item) ==> removed == Err::<Priority, ListError>(
            ListError::ItemNotFound,
        ),
        !after.nodes.contains_key(item),
        other != item ==> after.nodes.contains_key(other) == list.nodes.contains_key(other),
        other != item && list.nodes.contains_key(other) ==> after.nodes[other].priority
            == list.nodes[other].priority,
{
    let order = list.order();
    assert(list.chains(order));
    if list.nodes.contains_key(item) {
        assert(order.contains(item));
        let i = order.index_of(item);
        lemma_rest(list, order, i, other);
    }
}

/// What is left after an item was taken out of a list.
proof fn lemma_rest(list: Rows, order: Seq<ItemId>, i: int, other: ItemId)
    requires
        list.chains(order),
        0 <= i < order.len(),
    ensures
        ({
            let rest = list.without(order[i]);
            &&& rest.chains(order.remove(i))
            &&& !rest.nodes.contains_key(order[i])
            &&& other != order[i] ==> rest.nodes.contains_key(other) == list.nodes.contains_key(
                other,
            )
            &&& other != order[i] && list.nodes.contains_key(other) ==> rest.nodes[other].priority
                == list.nodes[other].priority
        }),
{
    let item = order[i];
    assert(list.nodes.contains_key(item));
    lemma_splice(list.nodes, list.meta, order, i);
    let rest = spliced(list.nodes, item);
    assert(list.nodes[item].prev == before(order, i) && list.nodes[item].next == at(order, i + 1));
    if i > 0 {
        assert(list.nodes.contains_key(order[i - 1]) && order[i - 1] != item);
    }
    if i + 1 < order.len() {
        assert(list.nodes.contains_key(order[i + 1]) && order[i + 1] != item);
    }
}

/// A changed priority is stored, every other item keeps its own, and the item then stands behind all
/// of at least its priority and before all others. Nothing changes exactly where the priority is the
/// one that is stored, and the item stays in its place exactly where its neighbours still admit it.
#[verifier::spinoff_prover]
pub proof fn law_moved_item_stands_where_it_belongs(
    list: Rows,
    item: ItemId,
    priority: Priority,
    hint: Position,
    budget: u32,
    moving: Result<Outcome, ListError>,
    after: Rows,
    other: ItemId,
    was: int,
    k: int,
)
    requires
        list.consistent(),
        list.moves(item, priority, hint, budget, moving, after),
        0 <= was < list.order().len(),
        list.order()[was] == item,
        moving is Ok,
        0 <= k < after.order().len(),
        after.order()[k] == item,
    ensures
        ({
            let order = list.order();
            let unchanged = list.nodes[item].priority == priority;
            let admitted = (was == 0 || list.nodes[order[was - 1]].priority >= priority) && (was + 1
                == order.len() || priority > list.nodes[order[was + 1]].priority);
            &&& moving == Ok::<Outcome, ListError>(Outcome::NoOp) <==> unchanged
            &&& moving == Ok::<Outcome, ListError>(Outcome::InPlace) <==> !unchanged && admitted
            &&& moving->Ok_0 is Relocated <==> !unchanged && !admitted
            &&& unchanged ==> after == list
            &&& after.nodes.contains_key(item)
            &&& after.nodes[item].priority == priority
            &&& after.nodes.contains_key(other) == list.nodes.contains_key(other)
            &&& other != item && list.nodes.contains_key(other) ==> after.nodes[other].priority
                == list.nodes[other].priority
            &&& forall|i: int|
                0 <= i < k ==> after.nodes[#[trigger] after.order()[i]].priority >= priority
            &&& !unchanged ==> forall|i: int|
                k < i < after.order().len() ==> after.nodes[
                    #[trigger] after.order()[i]
                ].priority < priority
        }),
{
    let order = list.order();
    assert(list.chains(order));
    law_move_keeps_a_list(list, item, priority, hint, budget, moving, after);
    lemma_outcome(list, order, priority, hint, budget, moving, after, was);
    let now = after.order();
    assert(after.chains(now));
    if moving->Ok_0 is InPlace {
        lemma_repriced(list, order, priority, other, was);
        assert(order.no_duplicates());
        assert(k == was);
    } else if moving->Ok_0 is Relocated {
        lemma_relocated(list, order, item, priority, after, other, was, k);
    } else {
        assert(list.nodes.contains_key(order[was]));
    }
    assert forall|i: int| 0 <= i < k implies after.nodes[#[trigger] now[i]].priority >= priority by {
        assert(after.nodes[now[i]].priority >= after.nodes[now[k]].priority);
    }
}

/// What comes of a changed priority.
#[verifier::spinoff_prover]
proof fn lemma_outcome(
    list: Rows,
    order: Seq<ItemId>,
    priority: Priority,
    hint: Position,
    budget: u32,
    moving: Result<Outcome, ListError>,
    after: Rows,
    was: int,
)
    requires
        list.chains(order),
        order == list.order(),
        0 <= was < order.len(),
        list.moves(order[was], priority, hint, budget, moving, after),
        moving is Ok,
    ensures
        ({
            let item = order[was];
            let unchanged = list.nodes[item].priority == priority;
            let admitted = (was == 0 || list.nodes[order[was - 1]].priority >= priority) && (was + 1
                == order.len() || priority > list.nodes[order[was + 1]].priority);
            let rest = list.without(item);
            &&& moving == Ok::<Outcome, ListError>(Outcome::NoOp) <==> unchanged
            &&& moving == Ok::<Outcome, ListError>(Outcome::InPlace) <==> !unchanged && admitted
            &&& moving->Ok_0 is Relocated <==> !unchanged && !admitted
            &&& unchanged ==> after == list
            &&& moving->Ok_0 is InPlace ==> after == list.repriced(item, priority)
            &&& moving->Ok_0 is Relocated ==> {
                &&& after == rest.with(item, priority, rest.place(priority))
                &&& after.chains(rest.order().insert(rest.rank(priority), item))
            }
        }),
{
    let item = order[was];
    assert(list.nodes.contains_key(order[was]));
    assert(list.nodes[order[was]].prev == before(order, was));
    assert(list.nodes[order[was]].next == at(order, was + 1));
    lemma_item_is_anchored(list.nodes, list.meta, order, was);
    assert(list.consistent());
}

/// An item whose priority was changed where it stands.
#[verifier::spinoff_prover]
proof fn lemma_repriced(
    list: Rows,
    order: Seq<ItemId>,
    priority: Priority,
    other: ItemId,
    was: int,
)
    requires
        list.chains(order),
        0 <= was < order.len(),
        was + 1 == order.len() || priority > list.nodes[order[was + 1]].priority,
    ensures
        ({
            let item = order[was];
            let after = list.repriced(item, priority);
            &&& after.nodes.contains_key(item)
            &&& after.nodes[item].priority == priority
            &&& after.nodes.contains_key(other) == list.nodes.contains_key(other)
            &&& other != item && list.nodes.contains_key(other) ==> after.nodes[other].priority
                == list.nodes[other].priority
            &&& forall|i: int|
                was < i < order.len() ==> after.nodes[#[trigger] order[i]].priority < priority
        }),
{
    let item = order[was];
    let after = list.repriced(item, priority);
    assert(list.nodes.contains_key(order[was]));
    assert forall|i: int| was < i < order.len() implies after.nodes[#[trigger] order[i]].priority
        < priority by {
        assert(order[i] != order[was]);
        if i > was + 1 {
            assert(list.nodes[order[was + 1]].priority >= list.nodes[order[i]].priority);
        }
    }
}

/// An item that was taken out and put in again.
#[verifier::spinoff_prover]
proof fn lemma_relocated(
    list: Rows,
    order: Seq<ItemId>,
    item: ItemId,
    priority: Priority,
    after: Rows,
    other: ItemId,
    was: int,
    k: int,
)
    requires
        list.chains(order),
        0 <= was < order.len(),
        order[was] == item,
        ({
            let rest = list.without(item);
            &&& after == rest.with(item, priority, rest.place(priority))
            &&& after.chains(rest.order().insert(rest.rank(priority), item))
            &&& after.order() == rest.order().insert(rest.rank(priority), item)
        }),
        0 <= k < after.order().len(),
        after.order()[k] == item,
    ensures
        after.nodes.contains_key(item),
        after.nodes[item].priority == priority,
        after.nodes.contains_key(other) == list.nodes.contains_key(other),
        other != item && list.nodes.contains_key(other) ==> after.nodes[other].priority
            == list.nodes[other].priority,
        forall|i: int|
            k < i < after.order().len() ==> after.nodes[#[trigger] after.order()[i]].priority
                < priority,
{
    let rest = list.without(item);
    lemma_rest(list, order, was, other);
    rest.lemma_order(order.remove(was));
    let left = rest.order();
    let gap = rest.rank(priority);
    let now = after.order();
    lemma_rank(rest.nodes, left, priority);
    lemma_place_is_in_the_list(rest, left, item, priority);
    lemma_joined_priorities(rest.nodes, item, priority, rest.place(priority), other);
    assert(k == gap) by {
        assert(now[gap] == item);
        assert(now.no_duplicates());
    }
    assert forall|i: int| k < i < now.len() implies after.nodes[#[trigger] now[i]].priority
        < priority by {
        assert(now[i] == left[i - 1]);
        assert(rest.nodes.contains_key(left[i - 1]));
        assert(rest.nodes[left[i - 1]].priority < priority);
        lemma_joined_priorities(rest.nodes, item, priority, rest.place(priority), left[i - 1]);
    }
}

/// An item is not taken out where a link to or from it does not lead back, where it has no head-side
/// or tail-side neighbour and is not that end of the list, or where the list's row does not count it;
/// such rows stay as they were.
pub proof fn law_removal_refuses_broken_rows(
    rows: Rows,
    item: ItemId,
    removed: Result<Priority, ListError>,
    after: Rows,
)
    requires
        rows.removes(item, removed, after),
        rows.nodes.contains_key(item),
    ensures
        ({
            let row = rows.nodes[item];
            let broken = {
                ||| row.prev == Some(item) || row.next == Some(item)
                ||| row.prev is Some && row.prev == row.next
                ||| row.prev is Some && !rows.nodes.contains_key(row.prev->0)
                ||| row.prev is Some && rows.nodes[row.prev->0].next != Some(item)
                ||| row.next is Some && !rows.nodes.contains_key(row.next->0)
                ||| row.next is Some && rows.nodes[row.next->0].prev != Some(item)
                ||| rows.meta is None
                ||| row.prev is None && rows.meta->0.head != Some(item)
                ||| row.next is None && rows.meta->0.tail != Some(item)
                ||| rows.meta->0.len == 0
                ||| rows.meta->0.len == 1 && (row.prev is Some || row.next is Some)
                ||| rows.meta->0.len != 1 && row.prev is None && row.next is None
            };
            &&& broken ==> removed == Err::<Priority, ListError>(ListError::CorruptList) && after
                == rows
            &&& !broken ==> removed == Ok::<Priority, ListError>(row.priority)
        }),
{
}

/// The items from the tail on are the last of the list, one after the other, as many as are asked for
/// or as there are.
pub proof fn law_tail_first(list: Rows, n: u32, i: int)
    requires
        list.consistent(),
    ensures
        ({
            let order = list.order();
            let items = list.from_tail(n);
            &&& n <= order.len() ==> items.len() == n
            &&& n > order.len() ==> items.len() == order.len()
            &&& 0 <= i < items.len() ==> items[i] == order[order.len() - 1 - i]
        }),
{
    law_tail_first_is_the_order_reversed(list, n);
}

/// A place that is looked up for a priority lies between the last item of at least that priority and
/// the first of less.
pub proof fn law_found_place_is_where_the_priority_belongs(
    list: Rows,
    priority: Priority,
    to: int,
)
    requires
        list.consistent(),
        0 <= to <= list.order().len(),
        forall|i: int|
            0 <= i < list.order().len() ==> (list.nodes[#[trigger] list.order()[i]].priority
                >= priority <==> i < to),
    ensures
        list.scan(priority, None).prev == (if to == 0 {
            None
        } else {
            Some(list.order()[to - 1])
        }),
        list.scan(priority, None).next == (if to == list.order().len() {
            None
        } else {
            Some(list.order()[to])
        }),
{
    assert(list.chains(list.order()));
    crate::linked_list::views::law_found_place_needs_no_repair(list, priority);
    lemma_rank(list.nodes, list.order(), priority);
    lemma_rank_is_unique(list.nodes, list.order(), priority, to);
}

/// An item's row reads as its priority and its two neighbours, and nothing reads of an item that is
/// not in the list.
pub proof fn law_read_row(list: Rows, item: ItemId, i: int)
    requires
        list.consistent(),
    ensures
        !list.order().contains(item) ==> list.node(item) is None,
        0 <= i < list.order().len() && list.order()[i] == item ==> {
            let order = list.order();
            &&& list.node(item) matches Some((priority, neighbours))
            &&& priority == list.nodes[item].priority
            &&& neighbours.prev == (if i == 0 {
                None
            } else {
                Some(order[i - 1])
            })
            &&& neighbours.next == (if i + 1 == order.len() {
                None
            } else {
                Some(order[i + 1])
            })
        },
{
    law_rows_of_a_list(list);
    if 0 <= i < list.order().len() && list.order()[i] == item {
        assert(list.order().contains(item));
        assert(list.nodes[list.order()[i]].prev == list.nodes[item].prev);
    }
}

/// An insertion reports the item, after the list where it is the first; a removal reports the item,
/// before the list where it was the last; a changed priority reports both priorities, and nothing is
/// reported where nothing changed.
pub proof fn law_reports(
    events: Seq<Event>,
    list_id: ListId,
    item: ItemId,
    old_priority: Priority,
    priority: Priority,
    rows: Rows,
    moving: Result<Outcome, ListError>,
)
    ensures
        ({
            let count = events.len() as int;
            let inserted = insert_events(events, list_id, item, priority, rows);
            let removed = remove_events(events, list_id, item, priority, rows);
            let moved = move_events(events, list_id, item, old_priority, priority, moving);
            &&& inserted.take(count) == events
            &&& removed.take(count) == events
            &&& moved.take(count) == events
            &&& inserted.len() == count + (if rows.meta is None {
                2int
            } else {
                1int
            })
            &&& inserted.last() == (Event::ItemInserted { list_id, item, priority })
            &&& rows.meta is None ==> inserted[count] == (Event::ListCreated { list_id })
            &&& removed.len() == count + (if rows.meta is None {
                2int
            } else {
                1int
            })
            &&& removed[count] == (Event::ItemRemoved { list_id, item, priority })
            &&& rows.meta is None ==> removed.last() == (Event::ListRemoved { list_id })
            &&& moving is Err || moving->Ok_0 is NoOp ==> moved.len() == count
            &&& moving is Ok && !(moving->Ok_0 is NoOp) ==> moved.len() == count + 1
                && moved.last() == (Event::ItemReinserted {
                list_id,
                item,
                old_priority,
                new_priority: priority,
            })
        }),
{
    assert(insert_events(events, list_id, item, priority, rows).take(events.len() as int) =~= events);
    assert(remove_events(events, list_id, item, priority, rows).take(events.len() as int) =~= events);
    assert(move_events(events, list_id, item, old_priority, priority, moving).take(
        events.len() as int,
    ) =~= events);
}

/// Repositioning an item of a list brings it to its authoritative priority, or takes it out once it
/// has none, and is charged by what it did: nothing but reads where the priority had not drifted. An
/// item that is not in the list is charged the same, and any other failure the whole reservation.
pub proof fn law_repositioning_settles_the_priority(
    before: Pallet,
    list_id: ListId,
    item: ItemId,
    real_priority: Option<Priority>,
    hint: Position,
    settled: Result<ReprioritizeWeight, ReprioritizeError>,
    after: Pallet,
)
    requires
        Pallet::reprioritizes(before, list_id, item, real_priority, hint, settled, after),
        before.rows(list_id).consistent(),
    ensures
        ({
            let rows = before.rows(list_id);
            let now = after.rows(list_id);
            let stored = rows.nodes[item].priority;
            &&& !rows.nodes.contains_key(item) ==> settled == Err::<
                ReprioritizeWeight,
                ReprioritizeError,
            >(
                ReprioritizeError::List {
                    error: ListError::ItemNotFound,
                    actual_weight: Some(ReprioritizeWeight::NoOp),
                },
            )
            &&& settled is Err ==> now == rows && after.events@ == before.events@
            &&& settled is Err && rows.nodes.contains_key(item) ==> settled == Err::<
                ReprioritizeWeight,
                ReprioritizeError,
            >(
                ReprioritizeError::List {
                    error: ListError::InvalidPositionHints,
                    actual_weight: None,
                },
            )
            &&& real_priority is None && rows.nodes.contains_key(item) ==> {
                &&& settled == Ok::<ReprioritizeWeight, ReprioritizeError>(
                    ReprioritizeWeight::PriorityRemoved,
                )
                &&& !now.nodes.contains_key(item)
            }
            &&& real_priority matches Some(priority) ==> {
                &&& settled is Ok ==> now.nodes.contains_key(item) && now.nodes[item].priority
                    == priority
                &&& settled == Ok::<ReprioritizeWeight, ReprioritizeError>(
                    ReprioritizeWeight::NoOp,
                ) <==> rows.nodes.contains_key(item) && stored == priority
                &&& settled != Ok::<ReprioritizeWeight, ReprioritizeError>(
                    ReprioritizeWeight::PriorityRemoved,
                )
            }
        }),
{
    let rows = before.rows(list_id);
    let now = after.rows(list_id);
    let order = rows.order();
    assert(rows.chains(order));
    match real_priority {
        None => {
            let removed = match settled {
                Ok(_) => Ok(rows.nodes[item].priority),
                Err(failure) => Err(failure->error),
            };
            law_removal_keeps_priorities(rows, item, removed, now, item);
        },
        Some(priority) => {
            let moving = match settled {
                Ok(ReprioritizeWeight::NoOp) => Ok(Outcome::NoOp),
                Ok(ReprioritizeWeight::InPlace) => Ok(Outcome::InPlace),
                Ok(ReprioritizeWeight::Relocate { steps }) => Ok(Outcome::Relocated { steps }),
                Ok(ReprioritizeWeight::PriorityRemoved) => Err(ListError::Internal),
                Err(failure) => Err(failure->error),
            };
            law_move_keeps_a_list(rows, item, priority, hint, before.budget(), moving, now);
            if rows.nodes.contains_key(item) && moving is Ok {
                assert(order.contains(item));
                let was = order.index_of(item);
                let places = now.order();
                assert(now.chains(places));
                assert(places.contains(item)) by {
                    if moving->Ok_0 is Relocated {
                        let rest = rows.without(item);
                        lemma_rest(rows, order, was, item);
                        rest.lemma_order(order.remove(was));
                        lemma_rank(rest.nodes, rest.order(), priority);
                        assert(places[rest.rank(priority)] == item);
                    }
                }
                law_moved_item_stands_where_it_belongs(
                    rows,
                    item,
                    priority,
                    hint,
                    before.budget(),
                    moving,
                    now,
                    item,
                    was,
                    places.index_of(item),
                );
            }
        },
    }
}

/// The contradictions of a list's ends are told apart: rows without the list's row and the other way
/// round, then a missing end, a count of zero, an end without a row, and an end that is none.
pub proof fn law_contradicted_ends(rows: Rows, meta: ListMeta, head: ItemId, tail: ItemId)
    requires
        rows.nodes.dom().finite(),
    ensures
        rows.meta is None ==> violation(rows.nodes, rows.meta) == (if rows.nodes.dom().len() > 0 {
            Some(Violation::NodesWithoutMeta)
        } else {
            None
        }),
        rows.meta is Some && rows.nodes.dom().len() == 0 ==> violation(rows.nodes, rows.meta)
            == Some(Violation::MetaWithoutNodes),
        rows.nodes.dom().len() > 0 && rows.meta == Some(meta) ==> {
            let found = violation(rows.nodes, rows.meta);
            &&& meta.head is None ==> found == Some(Violation::HeadIsNone)
            &&& meta.head is Some && meta.tail is None ==> found == Some(Violation::TailIsNone)
            &&& meta.head == Some(head) && meta.tail == Some(tail) ==> {
                &&& meta.len == 0 ==> found == Some(Violation::LenIsZero)
                &&& meta.len > 0 && !rows.nodes.contains_key(head) ==> found == Some(
                    Violation::HeadMissing,
                )
                &&& meta.len > 0 && rows.nodes.contains_key(head) && !rows.nodes.contains_key(tail)
                    ==> found == Some(Violation::TailMissing)
                &&& meta.len > 0 && rows.nodes.contains_key(head) && rows.nodes.contains_key(tail)
                    ==> {
                    &&& rows.nodes[head].prev is Some ==> found == Some(Violation::HeadHasPrev)
                    &&& rows.nodes[head].prev is None && rows.nodes[tail].next is Some ==> found
                        == Some(Violation::TailHasNext)
                }
            }
        },
{
}

/// Whatever the rows, an insertion that succeeds takes no more steps than the budget, and puts the
/// item between two neighbours that were linked to each other, or at an end that the list's row
/// names, the head-side one of at least its priority and the tail-side one of less; rows without a
/// list's row take only a first item. Nothing but the links to the item and the list's row changes
/// otherwise.
pub proof fn law_insertion_checks_its_place(
    rows: Rows,
    item: ItemId,
    priority: Priority,
    hint: Position,
    budget: u32,
    steps: u32,
    after: Rows,
    other: ItemId,
)
    requires
        rows.inserts(item, priority, hint, budget, Ok(steps), after),
    ensures
        ({
            let row = after.nodes[item];
            &&& steps <= budget
            &&& !rows.nodes.contains_key(item) && after.nodes.contains_key(item)
            &&& rows.meta is None ==> row.prev is None && row.next is None
            &&& row.prev matches Some(prev) ==> {
                &&& rows.nodes.contains_key(prev)
                &&& rows.nodes[prev].next == row.next
                &&& rows.nodes[prev].priority >= row.priority
                &&& prev != item
                &&& row.next != Some(prev) ==> after.nodes[prev].next == Some(item)
            }
            &&& row.next matches Some(next) ==> {
                &&& rows.nodes.contains_key(next)
                &&& rows.nodes[next].prev == row.prev
                &&& rows.nodes[next].priority < row.priority
                &&& next != item
                &&& after.nodes[next].prev == Some(item)
            }
            &&& rows.meta matches Some(meta) ==> {
                &&& row.prev is None ==> meta.head == row.next
                &&& row.next is None ==> meta.tail == row.prev
                &&& meta.len < u32::MAX
            }
            &&& row.priority == priority
            &&& other != item && Some(other) != row.prev && Some(other) != row.next ==> {
                &&& after.nodes.contains_key(other) == rows.nodes.contains_key(other)
                &&& after.nodes[other] == rows.nodes[other]
            }
            &&& after.meta matches Some(meta) && {
                &&& meta.len == rows.count() + 1
                &&& meta.head == (if row.prev is None {
                    Some(item)
                } else {
                    rows.head()
                })
                &&& meta.tail == (if row.next is None {
                    Some(item)
                } else {
                    rows.tail()
                })
            }
        }),
{
    let start = led_to(rows.nodes, rows.meta, hint);
    lemma_walk_is_within_budget(rows.nodes, priority, start, 0, budget);
    if budget > 0 {
        lemma_walk_is_within_budget(rows.nodes, priority, start, 1, budget);
    }
    let found = rows.repaired(priority, hint, budget)->Ok_0.0;
    assert(insertable(rows.nodes, rows.meta, priority, found));
}

/// Whatever the rows, an unchanged priority changes nothing, and a changed one is refused where the
/// item's links do not lead back to it; a refused change leaves the rows as they were.
pub proof fn law_move_refuses_broken_rows(
    rows: Rows,
    item: ItemId,
    priority: Priority,
    hint: Position,
    budget: u32,
    moving: Result<Outcome, ListError>,
    after: Rows,
)
    requires
        rows.moves(item, priority, hint, budget, moving, after),
    ensures
        ({
            let row = rows.nodes[item];
            let broken = {
                ||| row.prev == Some(item) || row.next == Some(item)
                ||| row.prev is Some && row.prev == row.next
                ||| row.prev is Some && !rows.nodes.contains_key(row.prev->0)
                ||| row.prev is Some && rows.nodes[row.prev->0].next != Some(item)
                ||| row.next is Some && !rows.nodes.contains_key(row.next->0)
                ||| row.next is Some && rows.nodes[row.next->0].prev != Some(item)
                ||| row.prev is None && rows.head() != Some(item)
                ||| row.next is None && rows.tail() != Some(item)
            };
            &&& moving is Err ==> after == rows
            &&& !rows.nodes.contains_key(item) ==> moving == Err::<Outcome, ListError>(
                ListError::ItemNotFound,
            )
            &&& rows.nodes.contains_key(item) && row.priority == priority ==> moving == Ok::<
                Outcome,
                ListError,
            >(Outcome::NoOp) && after == rows
            &&& rows.nodes.contains_key(item) && row.priority != priority && broken ==> moving
                == Err::<Outcome, ListError>(ListError::CorruptList)
        }),
{
}

/// Whatever the rows, removing the tail takes out the item that the list's row names, finds nothing
/// where there is no list's row, and is refused where that names none or one that cannot be taken
/// out.
pub proof fn law_pop_takes_the_tail(
    rows: Rows,
    popped: Result<Option<(ItemId, Priority)>, ListError>,
    after: Rows,
    removed: Result<Priority, ListError>,
    without: Rows,
)
    requires
        rows.pops(popped, after),
        rows.tail() matches Some(tail) ==> rows.removes(tail, removed, without),
    ensures
        rows.meta is None ==> popped == Ok::<Option<(ItemId, Priority)>, ListError>(None) && after
            == rows,
        rows.meta is Some && rows.tail() is None ==> popped == Err::<
            Option<(ItemId, Priority)>,
            ListError,
        >(ListError::CorruptList) && after == rows,
        rows.tail() matches Some(tail) ==> match removed {
            Ok(priority) => popped == Ok::<Option<(ItemId, Priority)>, ListError>(
                Some((tail, priority)),
            ) && after == without,
            Err(_) => popped == Err::<Option<(ItemId, Priority)>, ListError>(
                ListError::CorruptList,
            ) && after == rows,
        },
{
}

} // verus!
