//! Laws of sorted lists.

use crate::linked_list::rows::{
    at, before, led_to, lemma_item_is_anchored, lemma_rank, nearer, spliced, uncounted, walked, Nodes, Rows,
};
use crate::linked_list::types::{ItemId, ListError, Node, Outcome, Position, Priority};
use vstd::prelude::*;

verus! {

/// No rows are the rows of the list without items.
pub proof fn law_no_rows_are_an_empty_list()
    ensures
        Rows::none().consistent(),
        Rows::none().order() == Seq::<ItemId>::empty(),
{
    Rows::none().lemma_order(Seq::empty());
}

/// Inserting keeps a list a list, and puts the item where its priority belongs: behind the items of
/// at least that priority, so on the tail side of those of the same one, and before the others.
pub proof fn law_insertion_keeps_a_list(
    list: Rows,
    item: ItemId,
    priority: Priority,
    hint: Position,
    budget: u32,
    inserted: Result<u32, ListError>,
    after: Rows,
)
    requires
        list.consistent(),
        list.inserts(item, priority, hint, budget, inserted, after),
    ensures
        after.consistent(),
        inserted is Err ==> after == list,
        inserted is Ok ==> {
            &&& after.order() == list.order().insert(list.rank(priority), item)
            &&& 0 <= list.rank(priority) <= list.order().len()
            &&& forall|i: int|
                0 <= i < list.order().len() ==> (list.nodes[#[trigger] list.order()[i]].priority
                    >= priority) == (i < list.rank(priority))
        },
{
    assert(list.chains(list.order()));
    lemma_rank(list.nodes, list.order(), priority);
    if inserted is Ok {
        after.lemma_order(list.order().insert(list.rank(priority), item));
    }
}

/// Removing keeps a list a list, with the other items in their order.
pub proof fn law_removal_keeps_a_list(
    list: Rows,
    item: ItemId,
    removed: Result<Priority, ListError>,
    after: Rows,
)
    requires
        list.consistent(),
        list.removes(item, removed, after),
    ensures
        after.consistent(),
        removed is Err ==> after == list,
        removed is Ok ==> after.order() == list.order().remove(list.order().index_of(item)),
{
    if removed is Ok {
        after.lemma_order(list.order().remove(list.order().index_of(item)));
    }
}

/// Removing the tail keeps a list a list, with the other items in their order.
pub proof fn law_pop_keeps_a_list(
    list: Rows,
    popped: Result<Option<(ItemId, Priority)>, ListError>,
    after: Rows,
)
    requires
        list.consistent(),
        list.pops(popped, after),
    ensures
        after.consistent(),
        popped == (if list.order().len() == 0 {
            Ok::<Option<(ItemId, Priority)>, ListError>(None)
        } else {
            Ok(Some((list.order().last(), list.nodes[list.order().last()].priority)))
        }),
        list.order().len() > 0 ==> after.order() == list.order().drop_last(),
{
    assert(list.chains(list.order()));
    if list.order().len() > 0 {
        after.lemma_order(list.order().drop_last());
    }
}

/// Changing a priority keeps a list a list with the same items, whatever comes of it.
pub proof fn law_move_keeps_a_list(
    list: Rows,
    item: ItemId,
    priority: Priority,
    hint: Position,
    budget: u32,
    moving: Result<Outcome, ListError>,
    after: Rows,
)
    requires
        list.consistent(),
        list.moves(item, priority, hint, budget, moving, after),
    ensures
        after.consistent(),
        moving matches Err(error) ==> after == list && error == (if list.nodes.contains_key(item) {
            ListError::InvalidPositionHints
        } else {
            ListError::ItemNotFound
        }),
        moving == Ok::<Outcome, ListError>(Outcome::NoOp) ==> after == list,
        moving == Ok::<Outcome, ListError>(Outcome::InPlace) ==> after.order() == list.order(),
        moving matches Ok(outcome) && outcome is Relocated ==> {
            let rest = list.without(item);
            &&& rest.order() == list.order().remove(list.order().index_of(item))
            &&& after.order() == rest.order().insert(rest.rank(priority), item)
        },
{
    let order = list.order();
    assert(list.chains(order));
    if list.nodes.contains_key(item) {
        assert(order.contains(item));
        lemma_item_is_anchored(list.nodes, list.meta, order, order.index_of(item));
        if list.nodes[item].priority != priority {
            if list.stays(item, priority) {
                after.lemma_order(order);
            } else if moving is Ok {
                let rest = list.without(item);
                rest.lemma_order(order.remove(order.index_of(item)));
                after.lemma_order(rest.order().insert(rest.rank(priority), item));
            }
        }
    }
}

/// An item of a priority that no other is below goes to the tail, and is the next to be popped: items
/// of one priority leave last in, first out.
pub proof fn law_equal_priorities_leave_last_in_first_out(
    list: Rows,
    item: ItemId,
    priority: Priority,
    hint: Position,
    budget: u32,
    inserted: Result<u32, ListError>,
    between: Rows,
    popped: Result<Option<(ItemId, Priority)>, ListError>,
    after: Rows,
)
    requires
        list.consistent(),
        forall|other: ItemId| #[trigger]
            list.nodes.contains_key(other) ==> list.nodes[other].priority >= priority,
        list.inserts(item, priority, hint, budget, inserted, between),
        inserted is Ok,
        between.pops(popped, after),
    ensures
        popped == Ok::<Option<(ItemId, Priority)>, ListError>(Some((item, priority))),
        after == list,
{
    let order = list.order();
    assert(list.chains(order));
    lemma_rank(list.nodes, order, priority);
    if list.rank(priority) < order.len() {
        assert(list.nodes.contains_key(order[list.rank(priority)]));
    }
    let with = order.insert(order.len() as int, item);
    between.lemma_order(with);
    assert(with.last() == item);
    lemma_place_is_free(list, order, item, priority);
    lemma_removal_undoes_insertion(list, order, item, priority);
}

/// A new item's neighbours are other items.
proof fn lemma_place_is_free(list: Rows, order: Seq<ItemId>, item: ItemId, priority: Priority)
    requires
        list.chains(order),
        order == list.order(),
        !list.nodes.contains_key(item),
    ensures
        list.place(priority).prev != Some(item),
        list.place(priority).next != Some(item),
        list.with(item, priority, list.place(priority)).nodes[item].priority == priority,
{
    let gap = list.rank(priority);
    lemma_rank(list.nodes, order, priority);
    if gap > 0 {
        assert(list.nodes.contains_key(order[gap - 1]));
    }
    if gap < order.len() {
        assert(list.nodes.contains_key(order[gap]));
    }
}

/// Taking out what was put in leaves the rows that there were.
#[verifier::spinoff_prover]
proof fn lemma_removal_undoes_insertion(
    list: Rows,
    order: Seq<ItemId>,
    item: ItemId,
    priority: Priority,
)
    requires
        list.chains(order),
        order == list.order(),
        !list.nodes.contains_key(item),
        order.len() < u32::MAX,
    ensures
        list.with(item, priority, list.place(priority)).without(item) == list,
{
    let gap = list.rank(priority);
    lemma_rank(list.nodes, order, priority);
    let nodes = list.nodes;
    let with = list.with(item, priority, list.place(priority));
    if gap > 0 {
        assert(nodes.contains_key(order[gap - 1]));
        assert(nodes[order[gap - 1]].next == at(order, gap));
    }
    if gap < order.len() {
        assert(nodes.contains_key(order[gap]));
        assert(nodes[order[gap]].prev == before(order, gap));
    }
    if 0 < gap < order.len() {
        assert(order[gap - 1] != order[gap]);
    }
    assert(with.nodes[item] == (Node {
        priority,
        prev: before(order, gap),
        next: at(order, gap),
    }));
    assert(spliced(with.nodes, item) =~= nodes);
    assert(uncounted(with.meta->0, with.nodes[item]) == list.meta);
}

/// Removing an item that was just inserted leaves the list as it was.
pub proof fn law_removal_undoes_insertion(
    list: Rows,
    item: ItemId,
    priority: Priority,
    hint: Position,
    budget: u32,
    inserted: Result<u32, ListError>,
    between: Rows,
    removed: Result<Priority, ListError>,
    after: Rows,
)
    requires
        list.consistent(),
        list.inserts(item, priority, hint, budget, inserted, between),
        inserted is Ok,
        between.removes(item, removed, after),
    ensures
        removed == Ok::<Priority, ListError>(priority),
        after == list,
{
    let order = list.order();
    assert(list.chains(order));
    let gap = list.rank(priority);
    lemma_rank(list.nodes, order, priority);
    lemma_place_is_free(list, order, item, priority);
    lemma_removal_undoes_insertion(list, order, item, priority);
    let with = order.insert(gap, item);
    between.lemma_order(with);
    assert(with[gap] == item);
}

/// The steps told for an insertion are those that it takes, on any rows, and tell that it fails for
/// its hint. In a list with room the insertion fails for nothing else. A budget without a number
/// above it is left out.
pub proof fn law_told_insert_steps_are_faithful(
    rows: Rows,
    item: ItemId,
    priority: Priority,
    hint: Position,
    budget: u32,
    steps: u32,
    inserted: Result<u32, ListError>,
    after: Rows,
)
    requires
        !rows.nodes.contains_key(item),
        budget < u32::MAX,
        rows.tells_insert(priority, hint, budget, steps),
        rows.inserts(item, priority, hint, budget, inserted, after),
    ensures
        inserted matches Ok(taken) ==> taken == steps,
        steps > budget ==> inserted is Err,
        rows.consistent() && rows.order().len() < u32::MAX ==> inserted == (if steps <= budget {
            Ok(steps)
        } else {
            Err::<u32, ListError>(ListError::InvalidPositionHints)
        }),
{
    let start = led_to(rows.nodes, rows.meta, hint);
    lemma_walk_is_within_budget(rows.nodes, priority, start, 0, budget);
    if budget > 0 {
        lemma_walk_is_within_budget(rows.nodes, priority, start, 1, budget);
    }
    if rows.consistent() {
        rows.lemma_repaired_on_a_list(priority, hint, budget);
    }
}

/// The steps told for a move are those that it takes, none where it does not use its hint, and more
/// than the budget where it fails, on any rows. A budget without a number above it is left out.
pub proof fn law_told_move_steps_are_faithful(
    rows: Rows,
    item: ItemId,
    priority: Priority,
    hint: Position,
    budget: u32,
    steps: u32,
    moving: Result<Outcome, ListError>,
    after: Rows,
)
    requires
        budget < u32::MAX,
        rows.tells_move(item, priority, hint, budget, steps),
        rows.moves(item, priority, hint, budget, moving, after),
    ensures
        moving is Err == (steps > budget),
        moving matches Ok(outcome) ==> steps == (match outcome {
            Outcome::Relocated { steps } => steps,
            _ => 0,
        }),
        moving is Err ==> after == rows,
{
    let rest = rows.without(item);
    let start = led_to(rest.nodes, rest.meta, hint);
    lemma_walk_is_within_budget(rest.nodes, priority, start, 0, budget);
    if budget > 0 {
        lemma_walk_is_within_budget(rest.nodes, priority, start, 1, budget);
    }
}

/// A walk takes no more steps than its budget.
pub(crate) proof fn lemma_walk_is_within_budget(
    nodes: Nodes,
    priority: Priority,
    position: Position,
    steps: u32,
    budget: u32,
)
    requires
        steps <= budget,
    ensures
        walked(nodes, priority, position, steps, budget) matches Ok(walk) ==> walk.1 <= budget,
    decreases budget - steps,
{
    if steps < budget {
        lemma_walk_is_within_budget(
            nodes,
            priority,
            nearer(nodes, priority, position),
            (steps + 1) as u32,
            budget,
        );
    }
}

} // verus!
