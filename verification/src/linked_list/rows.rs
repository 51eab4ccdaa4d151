//! The rows of a sorted list, and what each operation makes of them.

use crate::linked_list::types::{
    ItemId, ListError, ListMeta, Node, Outcome, Position, Priority,
};
use vstd::prelude::*;

verus! {

/// Rows of the items.
pub type Nodes = Map<ItemId, Node>;

/// The neighbour on the head side of place `i`.
pub open spec fn before(order: Seq<ItemId>, i: int) -> Option<ItemId> {
    if 0 < i <= order.len() {
        Some(order[i - 1])
    } else {
        None
    }
}

/// The item at place `i`, which is the neighbour on the tail side of a gap there.
pub open spec fn at(order: Seq<ItemId>, i: int) -> Option<ItemId> {
    if 0 <= i < order.len() {
        Some(order[i])
    } else {
        None
    }
}

/// The neighbours of the gap before place `gap`.
pub open spec fn gap_position(order: Seq<ItemId>, gap: int) -> Position {
    Position { prev: before(order, gap), next: at(order, gap) }
}

/// Whether `nodes` are the rows of exactly the items of `order`, each linked to its neighbours, by
/// descending priority.
pub open spec fn linked_as(nodes: Nodes, order: Seq<ItemId>) -> bool {
    &&& order.no_duplicates()
    &&& forall|i: int| 0 <= i < order.len() ==> nodes.contains_key(#[trigger] order[i])
    &&& forall|item: ItemId| #[trigger] nodes.contains_key(item) ==> order.contains(item)
    &&& forall|i: int|
        0 <= i < order.len() ==> nodes[#[trigger] order[i]].prev == before(order, i)
    &&& forall|i: int|
        0 <= i < order.len() ==> nodes[#[trigger] order[i]].next == at(order, i + 1)
    &&& forall|i: int, j: int|
        0 <= i < j < order.len() ==> nodes[#[trigger] order[i]].priority
            >= nodes[#[trigger] order[j]].priority
}

/// Whether `meta` is the row of a list with the items of `order`.
pub open spec fn counted_as(meta: Option<ListMeta>, order: Seq<ItemId>) -> bool {
    if order.len() == 0 {
        meta is None
    } else {
        meta == Some(
            ListMeta {
                head: Some(order[0]),
                tail: Some(order.last()),
                len: order.len() as u32,
            },
        ) && order.len() <= u32::MAX
    }
}

/// The gap at which an item of `priority` belongs: behind every item of at least that priority.
pub open spec fn rank(nodes: Nodes, order: Seq<ItemId>, priority: Priority) -> int
    decreases order.len(),
{
    if order.len() == 0 {
        0
    } else if nodes[order.last()].priority >= priority {
        order.len() as int
    } else {
        rank(nodes, order.drop_last(), priority)
    }
}

/// The gap that a hint leads to: behind its head-side neighbour if that is in the list, before its
/// tail-side neighbour if it names no other and that is in the list, else before the head.
pub open spec fn anchor(order: Seq<ItemId>, hint: Position) -> int {
    match hint.prev {
        Some(prev) => if order.contains(prev) {
            order.index_of(prev) + 1
        } else {
            0
        },
        None => match hint.next {
            Some(next) => if order.contains(next) {
                order.index_of(next)
            } else {
                0
            },
            None => 0,
        },
    }
}

/// Nodes that the walk from a hint to the right place crosses, plus one where the hint does not
/// name the two neighbours of a gap.
pub open spec fn repair_steps(
    nodes: Nodes,
    order: Seq<ItemId>,
    priority: Priority,
    hint: Position,
) -> int {
    let from = anchor(order, hint);
    let to = rank(nodes, order, priority);
    let crossed = if from <= to {
        to - from
    } else {
        from - to
    };
    if hint == gap_position(order, from) {
        crossed
    } else {
        crossed + 1
    }
}

/// The right place is behind every item of at least the priority and before every other.
pub proof fn lemma_rank(nodes: Nodes, order: Seq<ItemId>, priority: Priority)
    requires
        linked_as(nodes, order),
    ensures
        0 <= rank(nodes, order, priority) <= order.len(),
        forall|i: int|
            0 <= i < rank(nodes, order, priority) ==> nodes[#[trigger] order[i]].priority
                >= priority,
        forall|i: int|
            rank(nodes, order, priority) <= i < order.len() ==> nodes[#[trigger] order[i]].priority
                < priority,
{
    lemma_rank_of_prefix(nodes, order, order.len() as int, priority);
    assert(order.take(order.len() as int) == order);
}

/// The right place within the first `len` items.
pub(crate) proof fn lemma_rank_of_prefix(nodes: Nodes, order: Seq<ItemId>, len: int, priority: Priority)
    requires
        linked_as(nodes, order),
        0 <= len <= order.len(),
    ensures
        0 <= rank(nodes, order.take(len), priority) <= len,
        forall|i: int|
            0 <= i < rank(nodes, order.take(len), priority) ==> nodes[#[trigger] order[i]].priority
                >= priority,
        forall|i: int|
            rank(nodes, order.take(len), priority) <= i < len ==> nodes[
                #[trigger] order[i]
            ].priority < priority,
    decreases len,
{
    if len > 0 {
        assert(order.take(len).last() == order[len - 1]);
        assert(order.take(len).drop_last() == order.take(len - 1));
        if nodes[order[len - 1]].priority < priority {
            lemma_rank_of_prefix(nodes, order, len - 1, priority);
        }
    }
}

/// A gap that splits the items by priority is the right place.
pub proof fn lemma_rank_is_unique(nodes: Nodes, order: Seq<ItemId>, priority: Priority, gap: int)
    requires
        linked_as(nodes, order),
        0 <= gap <= order.len(),
        gap > 0 ==> nodes[order[gap - 1]].priority >= priority,
        gap < order.len() ==> nodes[order[gap]].priority < priority,
    ensures
        gap == rank(nodes, order, priority),
{
    lemma_rank(nodes, order, priority);
}

/// Rows are linked in one order only.
pub proof fn lemma_order_is_unique(
    nodes: Nodes,
    meta: Option<ListMeta>,
    one: Seq<ItemId>,
    other: Seq<ItemId>,
)
    requires
        linked_as(nodes, one),
        linked_as(nodes, other),
        counted_as(meta, one),
        counted_as(meta, other),
    ensures
        one == other,
{
    assert(one.len() == other.len());
    assert forall|i: int| 0 <= i < one.len() implies one[i] == other[i] by {
        lemma_orders_agree_at(nodes, meta, one, other, i);
    }
    assert(one =~= other);
}

/// Two orders of the same rows agree at place `i`.
pub(crate) proof fn lemma_orders_agree_at(
    nodes: Nodes,
    meta: Option<ListMeta>,
    one: Seq<ItemId>,
    other: Seq<ItemId>,
    i: int,
)
    requires
        linked_as(nodes, one),
        linked_as(nodes, other),
        counted_as(meta, one),
        counted_as(meta, other),
        one.len() == other.len(),
        0 <= i < one.len(),
    ensures
        one[i] == other[i],
    decreases i,
{
    if i > 0 {
        lemma_orders_agree_at(nodes, meta, one, other, i - 1);
        assert(nodes[one[i - 1]].next == Some(one[i]));
        assert(nodes[other[i - 1]].next == Some(other[i]));
    }
}

/// Whether an item's row, its neighbours' rows and the list's row agree on where the item stands.
pub open spec fn anchored_links(nodes: Nodes, meta: Option<ListMeta>, item: ItemId) -> bool {
    let node = nodes[item];
    &&& node.prev != Some(item)
    &&& node.next != Some(item)
    &&& node.prev is Some ==> node.prev != node.next
    &&& match node.prev {
        Some(prev) => nodes.contains_key(prev) && nodes[prev].next == Some(item),
        None => meta matches Some(meta) && meta.head == Some(item),
    }
    &&& match node.next {
        Some(next) => nodes.contains_key(next) && nodes[next].prev == Some(item),
        None => meta matches Some(meta) && meta.tail == Some(item),
    }
}

/// Whether an item can be taken out: its links agree, and the list's row counts it, as the only one
/// exactly where it has no neighbours.
pub open spec fn removable(nodes: Nodes, meta: Option<ListMeta>, item: ItemId) -> bool {
    &&& anchored_links(nodes, meta, item)
    &&& meta matches Some(meta) && meta.len > 0 && ((meta.len == 1) == (nodes[item].prev is None
        && nodes[item].next is None))
}

/// The rows without an item, its neighbours linked to each other.
pub open spec fn spliced(nodes: Nodes, item: ItemId) -> Nodes {
    let node = nodes[item];
    let without = nodes.remove(item);
    let joined = match node.prev {
        Some(prev) => without.insert(prev, Node { next: node.next, ..nodes[prev] }),
        None => without,
    };
    match node.next {
        Some(next) => joined.insert(next, Node { prev: node.prev, ..nodes[next] }),
        None => joined,
    }
}

/// The list's row without an item whose row is `node`.
pub open spec fn uncounted(meta: ListMeta, node: Node) -> Option<ListMeta> {
    if meta.len == 1 {
        None
    } else {
        Some(
            ListMeta {
                head: if node.prev is None {
                    node.next
                } else {
                    meta.head
                },
                tail: if node.next is None {
                    node.prev
                } else {
                    meta.tail
                },
                len: (meta.len - 1) as u32,
            },
        )
    }
}

/// The place before place `i` was taken out that is now place `k`.
pub open spec fn unspliced(i: int, k: int) -> int {
    if k < i {
        k
    } else {
        k + 1
    }
}

/// Each remaining item's row after an item was taken out.
#[verifier::spinoff_prover]
pub proof fn lemma_splice_row(nodes: Nodes, order: Seq<ItemId>, i: int, k: int)
    requires
        linked_as(nodes, order),
        0 <= i < order.len(),
        0 <= k < order.len() - 1,
    ensures
        ({
            let rest = order.remove(i);
            let after = spliced(nodes, order[i]);
            &&& rest[k] == order[unspliced(i, k)]
            &&& rest[k] != order[i]
            &&& after.contains_key(rest[k])
            &&& after[rest[k]].priority == nodes[rest[k]].priority
            &&& after[rest[k]].prev == before(rest, k)
            &&& after[rest[k]].next == at(rest, k + 1)
        }),
{
    let was = unspliced(i, k);
    let x = order[was];
    let node = nodes[order[i]];
    assert(nodes.contains_key(order[i]) && nodes.contains_key(x));
    assert(node.prev == before(order, i) && node.next == at(order, i + 1));
    assert(nodes[x].prev == before(order, was) && nodes[x].next == at(order, was + 1));
    if i > 0 {
        assert((order[i - 1] == x) == (was == i - 1));
    }
    if i + 1 < order.len() {
        assert((order[i + 1] == x) == (was == i + 1));
    }
}

/// Every row that remains after an item was taken out is that of a remaining item.
#[verifier::spinoff_prover]
pub(crate) proof fn lemma_splice_item(nodes: Nodes, order: Seq<ItemId>, i: int, x: ItemId)
    requires
        linked_as(nodes, order),
        0 <= i < order.len(),
        spliced(nodes, order[i]).contains_key(x),
    ensures
        order.remove(i).contains(x),
{
    let item = order[i];
    assert(nodes[item].prev == before(order, i) && nodes[item].next == at(order, i + 1));
    assert(nodes.contains_key(x) && x != item) by {
        if i > 0 {
            assert(nodes.contains_key(order[i - 1]) && order[i - 1] != item);
        }
        if i + 1 < order.len() {
            assert(nodes.contains_key(order[i + 1]) && order[i + 1] != item);
        }
    }
    assert(order.contains(x));
    let was = order.index_of(x);
    let k = if was < i {
        was
    } else {
        was - 1
    };
    assert(order.remove(i)[k] == x);
}

/// No item remains twice.
pub(crate) proof fn lemma_remove_keeps_distinct(order: Seq<ItemId>, i: int)
    requires
        order.no_duplicates(),
        0 <= i < order.len(),
    ensures
        order.remove(i).no_duplicates(),
{
}

/// Taking an item out of a list leaves the list without it.
#[verifier::spinoff_prover]
pub proof fn lemma_splice(nodes: Nodes, meta: Option<ListMeta>, order: Seq<ItemId>, i: int)
    requires
        linked_as(nodes, order),
        counted_as(meta, order),
        0 <= i < order.len(),
    ensures
        removable(nodes, meta, order[i]),
        linked_as(spliced(nodes, order[i]), order.remove(i)),
        counted_as(uncounted(meta->0, nodes[order[i]]), order.remove(i)),
{
    let rest = order.remove(i);
    let after = spliced(nodes, order[i]);
    lemma_remove_keeps_distinct(order, i);
    assert forall|x: ItemId| #[trigger] after.contains_key(x) implies rest.contains(x) by {
        lemma_splice_item(nodes, order, i, x);
    }
    assert forall|k: int| 0 <= k < rest.len() implies after.contains_key(#[trigger] rest[k]) by {
        lemma_splice_row(nodes, order, i, k);
    }
    assert forall|k: int| 0 <= k < rest.len() implies after[#[trigger] rest[k]].prev == before(
        rest,
        k,
    ) by {
        lemma_splice_row(nodes, order, i, k);
    }
    assert forall|k: int| 0 <= k < rest.len() implies after[#[trigger] rest[k]].next == at(
        rest,
        k + 1,
    ) by {
        lemma_splice_row(nodes, order, i, k);
    }
    assert forall|k: int, l: int| 0 <= k < l < rest.len() implies after[
        #[trigger] rest[k]
    ].priority >= after[#[trigger] rest[l]].priority by {
        lemma_splice_row(nodes, order, i, k);
        lemma_splice_row(nodes, order, i, l);
        assert(nodes[order[unspliced(i, k)]].priority >= nodes[order[unspliced(i, l)]].priority);
    }
    lemma_item_is_anchored(nodes, meta, order, i);
    lemma_splice_count(nodes, meta, order, i);
}

/// The list's row after an item was taken out.
#[verifier::spinoff_prover]
pub(crate) proof fn lemma_splice_count(nodes: Nodes, meta: Option<ListMeta>, order: Seq<ItemId>, i: int)
    requires
        linked_as(nodes, order),
        counted_as(meta, order),
        0 <= i < order.len(),
    ensures
        counted_as(uncounted(meta->0, nodes[order[i]]), order.remove(i)),
{
    assert(nodes[order[i]].prev == before(order, i));
    assert(nodes[order[i]].next == at(order, i + 1));
}

/// Every item of a list can be taken out.
#[verifier::spinoff_prover]
pub(crate) proof fn lemma_item_is_anchored(nodes: Nodes, meta: Option<ListMeta>, order: Seq<ItemId>, i: int)
    requires
        linked_as(nodes, order),
        counted_as(meta, order),
        0 <= i < order.len(),
    ensures
        removable(nodes, meta, order[i]),
{
    assert(nodes[order[i]].prev == before(order, i));
    assert(nodes[order[i]].next == at(order, i + 1));
    if i > 0 {
        assert(nodes.contains_key(order[i - 1]));
        assert(nodes[order[i - 1]].next == at(order, i));
        assert(order[i - 1] != order[i]);
    }
    if i + 1 < order.len() {
        assert(nodes.contains_key(order[i + 1]));
        assert(nodes[order[i + 1]].prev == before(order, i + 1));
        assert(order[i + 1] != order[i]);
    }
    if 0 < i && i + 1 < order.len() {
        assert(order[i - 1] != order[i + 1]);
    }
}

/// The rows with an item put in at `position`.
pub open spec fn joined(nodes: Nodes, item: ItemId, priority: Priority, position: Position) -> Nodes {
    let with = nodes.insert(item, Node { priority, prev: position.prev, next: position.next });
    let behind = match position.prev {
        Some(prev) => with.insert(prev, Node { next: Some(item), ..nodes[prev] }),
        None => with,
    };
    match position.next {
        Some(next) => behind.insert(next, Node { prev: Some(item), ..nodes[next] }),
        None => behind,
    }
}

/// The list's row with an item put in at `position`.
pub open spec fn recounted(meta: Option<ListMeta>, item: ItemId, position: Position) -> ListMeta {
    match meta {
        None => ListMeta { head: Some(item), tail: Some(item), len: 1 },
        Some(meta) => ListMeta {
            head: if position.prev is None {
                Some(item)
            } else {
                meta.head
            },
            tail: if position.next is None {
                Some(item)
            } else {
                meta.tail
            },
            len: (meta.len + 1) as u32,
        },
    }
}

/// The place before an item was put in at `gap` that is now place `k`.
pub open spec fn unjoined(gap: int, k: int) -> int {
    if k < gap {
        k
    } else {
        k - 1
    }
}

/// Each earlier item's row after an item was put in.
#[verifier::spinoff_prover]
pub(crate) proof fn lemma_join_row(
    nodes: Nodes,
    order: Seq<ItemId>,
    item: ItemId,
    priority: Priority,
    gap: int,
    k: int,
)
    requires
        linked_as(nodes, order),
        !nodes.contains_key(item),
        0 <= gap <= order.len(),
        0 <= k <= order.len(),
    ensures
        ({
            let with = order.insert(gap, item);
            let after = joined(nodes, item, priority, gap_position(order, gap));
            &&& with[k] == (if k == gap {
                item
            } else {
                order[unjoined(gap, k)]
            })
            &&& k != gap ==> with[k] != item
            &&& after.contains_key(with[k])
            &&& after[with[k]].priority == (if k == gap {
                priority
            } else {
                nodes[with[k]].priority
            })
            &&& after[with[k]].prev == before(with, k)
            &&& after[with[k]].next == at(with, k + 1)
        }),
{
    if gap > 0 {
        assert(nodes.contains_key(order[gap - 1]));
    }
    if gap < order.len() {
        assert(nodes.contains_key(order[gap]));
    }
    if k != gap {
        let was = unjoined(gap, k);
        let x = order[was];
        assert(nodes.contains_key(x));
        assert(nodes[x].prev == before(order, was) && nodes[x].next == at(order, was + 1));
        if gap > 0 {
            assert((order[gap - 1] == x) == (was == gap - 1));
        }
        if gap < order.len() {
            assert((order[gap] == x) == (was == gap));
        }
    }
}

/// The items after one was put in.
#[verifier::spinoff_prover]
pub(crate) proof fn lemma_join_items(
    nodes: Nodes,
    order: Seq<ItemId>,
    item: ItemId,
    priority: Priority,
    gap: int,
)
    requires
        linked_as(nodes, order),
        !nodes.contains_key(item),
        0 <= gap <= order.len(),
    ensures
        order.insert(gap, item).no_duplicates(),
        forall|x: ItemId| #[trigger]
            joined(nodes, item, priority, gap_position(order, gap)).contains_key(x)
                ==> order.insert(gap, item).contains(x),
{
    let with = order.insert(gap, item);
    if gap > 0 {
        assert(nodes.contains_key(order[gap - 1]));
    }
    if gap < order.len() {
        assert(nodes.contains_key(order[gap]));
    }
    assert forall|k: int, l: int| 0 <= k < with.len() && 0 <= l < with.len() && k != l implies
        with[k] != with[l] by {
        lemma_join_row(nodes, order, item, priority, gap, k);
        lemma_join_row(nodes, order, item, priority, gap, l);
        if k != gap && l != gap {
            assert(order[unjoined(gap, k)] != order[unjoined(gap, l)]);
        }
    }
    assert forall|x: ItemId| #[trigger]
        joined(nodes, item, priority, gap_position(order, gap)).contains_key(x) implies with.contains(
        x,
    ) by {
        if x == item {
            assert(with[gap] == item);
        } else {
            assert(nodes.contains_key(x));
            assert(order.contains(x));
            let was = order.index_of(x);
            assert(order[was] == x);
            let k = if was < gap {
                was
            } else {
                was + 1
            };
            assert(with[k] == x);
        }
    }
}

/// Putting an item where its priority belongs leaves a list with it there.
#[verifier::spinoff_prover]
pub(crate) proof fn lemma_join(
    nodes: Nodes,
    meta: Option<ListMeta>,
    order: Seq<ItemId>,
    item: ItemId,
    priority: Priority,
    gap: int,
)
    requires
        linked_as(nodes, order),
        counted_as(meta, order),
        !nodes.contains_key(item),
        gap == rank(nodes, order, priority),
        order.len() < u32::MAX,
    ensures
        0 <= gap <= order.len(),
        linked_as(joined(nodes, item, priority, gap_position(order, gap)), order.insert(gap, item)),
        counted_as(
            Some(recounted(meta, item, gap_position(order, gap))),
            order.insert(gap, item),
        ),
{
    lemma_rank(nodes, order, priority);
    let with = order.insert(gap, item);
    let after = joined(nodes, item, priority, gap_position(order, gap));
    lemma_join_items(nodes, order, item, priority, gap);
    assert forall|k: int| 0 <= k < with.len() implies after.contains_key(#[trigger] with[k]) by {
        lemma_join_row(nodes, order, item, priority, gap, k);
    }
    assert forall|k: int| 0 <= k < with.len() implies after[#[trigger] with[k]].prev == before(
        with,
        k,
    ) by {
        lemma_join_row(nodes, order, item, priority, gap, k);
    }
    assert forall|k: int| 0 <= k < with.len() implies after[#[trigger] with[k]].next == at(
        with,
        k + 1,
    ) by {
        lemma_join_row(nodes, order, item, priority, gap, k);
    }
    assert forall|k: int, l: int| 0 <= k < l < with.len() implies after[
        #[trigger] with[k]
    ].priority >= after[#[trigger] with[l]].priority by {
        lemma_join_row(nodes, order, item, priority, gap, k);
        lemma_join_row(nodes, order, item, priority, gap, l);
        if k != gap && l != gap {
            assert(nodes[order[unjoined(gap, k)]].priority >= nodes[order[unjoined(gap, l)]].priority);
        } else if k == gap {
            assert(nodes[order[unjoined(gap, l)]].priority < priority);
        } else {
            assert(nodes[order[unjoined(gap, k)]].priority >= priority);
        }
    }
    lemma_join_count(meta, order, item, gap);
}

/// The list's row after an item was put in.
#[verifier::spinoff_prover]
pub(crate) proof fn lemma_join_count(meta: Option<ListMeta>, order: Seq<ItemId>, item: ItemId, gap: int)
    requires
        counted_as(meta, order),
        0 <= gap <= order.len() < u32::MAX,
    ensures
        counted_as(
            Some(recounted(meta, item, gap_position(order, gap))),
            order.insert(gap, item),
        ),
{
}

/// Whether rows of the two neighbours let an item of `priority` stand between them.
pub open spec fn admits(priority: Priority, prev: Option<Node>, next: Option<Node>) -> bool {
    &&& prev matches Some(prev) ==> prev.priority >= priority
    &&& next matches Some(next) ==> priority > next.priority
}

/// Whether an item of `priority` can be put in at `position`: the list's row counts the items, the
/// two neighbours are linked to each other, or are the ends that the list's row names, and their
/// priorities admit it.
pub open spec fn insertable(
    nodes: Nodes,
    meta: Option<ListMeta>,
    priority: Priority,
    position: Position,
) -> bool {
    match meta {
        None => position == (Position { prev: None, next: None }),
        Some(meta) => {
            &&& meta.len > 0
            &&& position.prev is Some || position.next is Some
            &&& match position.prev {
                Some(prev) => nodes.contains_key(prev) && nodes[prev].next == position.next
                    && nodes[prev].priority >= priority,
                None => meta.head == position.next,
            }
            &&& match position.next {
                Some(next) => nodes.contains_key(next) && nodes[next].prev == position.prev
                    && priority > nodes[next].priority,
                None => meta.tail == position.prev,
            }
        },
    }
}

/// An item can be put in where its priority belongs.
pub(crate) proof fn lemma_right_place_is_insertable(
    nodes: Nodes,
    meta: Option<ListMeta>,
    order: Seq<ItemId>,
    priority: Priority,
)
    requires
        linked_as(nodes, order),
        counted_as(meta, order),
    ensures
        insertable(nodes, meta, priority, gap_position(order, rank(nodes, order, priority))),
{
    let gap = rank(nodes, order, priority);
    lemma_rank(nodes, order, priority);
    if gap > 0 {
        assert(nodes.contains_key(order[gap - 1]));
        assert(nodes[order[gap - 1]].next == at(order, gap));
    }
    if gap < order.len() {
        assert(nodes.contains_key(order[gap]));
        assert(nodes[order[gap]].prev == before(order, gap));
    }
}

/// A priority that the neighbours admit can be changed in place.
#[verifier::spinoff_prover]
pub(crate) proof fn lemma_reprice(nodes: Nodes, order: Seq<ItemId>, i: int, priority: Priority)
    requires
        linked_as(nodes, order),
        0 <= i < order.len(),
        i > 0 ==> nodes[order[i - 1]].priority >= priority,
        i + 1 < order.len() ==> priority > nodes[order[i + 1]].priority,
    ensures
        linked_as(
            nodes.insert(order[i], Node { priority, ..nodes[order[i]] }),
            order,
        ),
{
    let after = nodes.insert(order[i], Node { priority, ..nodes[order[i]] });
    assert forall|k: int| 0 <= k < order.len() implies after[#[trigger] order[k]] == (if k == i {
        Node { priority, ..nodes[order[k]] }
    } else {
        nodes[order[k]]
    }) by {}
    assert forall|k: int, l: int| 0 <= k < l < order.len() implies after[
        #[trigger] order[k]
    ].priority >= after[#[trigger] order[l]].priority by {
        if k == i {
            assert(nodes[order[i + 1]].priority >= nodes[order[l]].priority);
        } else if l == i {
            assert(nodes[order[k]].priority >= nodes[order[i - 1]].priority);
        }
    }
}

/// The row that a neighbour has, if there is a neighbour.
pub open spec fn row_of(nodes: Nodes, item: Option<ItemId>) -> Option<Node> {
    match item {
        Some(item) => Some(nodes[item]),
        None => None,
    }
}

/// The gap that a hint leads to: behind the head-side neighbour that it names, or, where it names
/// none, before the tail-side one; at the head where the one it goes by is not in the list.
pub open spec fn led_to(nodes: Nodes, meta: Option<ListMeta>, hint: Position) -> Position {
    let start = Position {
        prev: None,
        next: match meta {
            Some(meta) => meta.head,
            None => None,
        },
    };
    match (hint.prev, hint.next) {
        (Some(prev), _) => if nodes.contains_key(prev) {
            Position { prev: Some(prev), next: nodes[prev].next }
        } else {
            start
        },
        (None, Some(next)) => if nodes.contains_key(next) {
            Position { prev: nodes[next].prev, next: Some(next) }
        } else {
            start
        },
        (None, None) => start,
    }
}

/// Whether each neighbour that a place names has a row.
pub open spec fn has_rows(nodes: Nodes, position: Position) -> bool {
    &&& position.prev matches Some(prev) ==> nodes.contains_key(prev)
    &&& position.next matches Some(next) ==> nodes.contains_key(next)
}

/// The gap beside `position` that is nearer to where `priority` belongs.
pub open spec fn nearer(nodes: Nodes, priority: Priority, position: Position) -> Position {
    match position.prev {
        Some(prev) if nodes[prev].priority < priority => Position {
            prev: nodes[prev].prev,
            next: Some(prev),
        },
        _ => Position {
            prev: position.next,
            next: match position.next {
                Some(next) => nodes[next].next,
                None => None,
            },
        },
    }
}

/// Where a walk from `position` for an item of `priority` ends after `steps` steps, and the steps
/// that it has taken then. A neighbour without a row is corruption; a place that is still wrong
/// when the budget is spent is not found.
pub open spec fn walked(
    nodes: Nodes,
    priority: Priority,
    position: Position,
    steps: u32,
    budget: u32,
) -> Result<(Position, u32), ListError>
    decreases budget - steps,
{
    if !has_rows(nodes, position) {
        Err(ListError::CorruptList)
    } else if admits(
        priority,
        row_of(nodes, position.prev),
        row_of(nodes, position.next),
    ) {
        Ok((position, steps))
    } else if steps >= budget {
        Err(ListError::InvalidPositionHints)
    } else {
        walked(nodes, priority, nearer(nodes, priority, position), (steps + 1) as u32, budget)
    }
}

/// On the rows of a list, a hint leads to the gap that it is anchored at.
#[verifier::spinoff_prover]
pub(crate) proof fn lemma_hint_on_a_list(
    nodes: Nodes,
    meta: Option<ListMeta>,
    order: Seq<ItemId>,
    hint: Position,
)
    requires
        linked_as(nodes, order),
        counted_as(meta, order),
    ensures
        0 <= anchor(order, hint) <= order.len(),
        led_to(nodes, meta, hint) == gap_position(order, anchor(order, hint)),
{
    if let Some(prev) = hint.prev {
        if order.contains(prev) {
            let i = order.index_of(prev);
            assert(order[i] == prev);
            assert(nodes.contains_key(order[i]));
        }
    } else if let Some(next) = hint.next {
        if order.contains(next) {
            let i = order.index_of(next);
            assert(order[i] == next);
            assert(nodes.contains_key(order[i]));
        }
    }
}

/// On the rows of a list, a walk from a gap takes a step for each item between the gap and the
/// right place.
#[verifier::spinoff_prover]
pub(crate) proof fn lemma_walk_on_a_list(
    nodes: Nodes,
    order: Seq<ItemId>,
    priority: Priority,
    gap: int,
    steps: u32,
    budget: u32,
)
    requires
        linked_as(nodes, order),
        0 <= gap <= order.len(),
        steps <= budget,
    ensures
        ({
            let to = rank(nodes, order, priority);
            let needed = steps + (if gap <= to {
                to - gap
            } else {
                gap - to
            });
            walked(nodes, priority, gap_position(order, gap), steps, budget) == (if needed
                <= budget {
                Ok((gap_position(order, to), needed as u32))
            } else {
                Err::<(Position, u32), ListError>(ListError::InvalidPositionHints)
            })
        }),
    decreases budget - steps,
{
    let position = gap_position(order, gap);
    let to = rank(nodes, order, priority);
    lemma_rank(nodes, order, priority);
    if gap > 0 {
        assert(nodes.contains_key(order[gap - 1]));
        assert(nodes[order[gap - 1]].prev == before(order, gap - 1));
    }
    if gap < order.len() {
        assert(nodes.contains_key(order[gap]));
        assert(nodes[order[gap]].next == at(order, gap + 1));
    }
    if gap != to && steps < budget {
        let next = if gap > to {
            gap - 1
        } else {
            gap + 1
        };
        assert(nearer(nodes, priority, position) == gap_position(order, next));
        lemma_walk_on_a_list(nodes, order, priority, next, (steps + 1) as u32, budget);
    }
}

/// The rows of a list.
pub ghost struct Rows {
    /// The items' rows.
    pub nodes: Nodes,
    /// The list's own row.
    pub meta: Option<ListMeta>,
}

impl Rows {
    /// No rows.
    pub open spec fn none() -> Rows {
        Rows { nodes: Map::empty(), meta: None }
    }

    /// Whether the rows hold the items of `order`.
    pub open spec fn chains(self, order: Seq<ItemId>) -> bool {
        linked_as(self.nodes, order) && counted_as(self.meta, order)
    }

    /// Whether the rows hold a list.
    pub open spec fn consistent(self) -> bool {
        exists|order: Seq<ItemId>| self.chains(order)
    }

    /// The items in order, head first, where the rows hold a list.
    pub open spec fn order(self) -> Seq<ItemId> {
        choose|order: Seq<ItemId>| self.chains(order)
    }

    /// The gap at which an item of `priority` belongs.
    pub open spec fn rank(self, priority: Priority) -> int {
        rank(self.nodes, self.order(), priority)
    }

    /// The place at which an item of `priority` belongs.
    pub open spec fn place(self, priority: Priority) -> Position {
        gap_position(self.order(), self.rank(priority))
    }

    /// Steps that the repair of a hint for an item of `priority` takes.
    pub open spec fn repair_steps(self, priority: Priority, hint: Position) -> int {
        repair_steps(self.nodes, self.order(), priority, hint)
    }

    /// The rows without an item.
    pub open spec fn without(self, item: ItemId) -> Rows {
        Rows {
            nodes: spliced(self.nodes, item),
            meta: uncounted(self.meta->0, self.nodes[item]),
        }
    }

    /// The rows with an item put in at `position`.
    pub open spec fn with(self, item: ItemId, priority: Priority, position: Position) -> Rows {
        Rows {
            nodes: joined(self.nodes, item, priority, position),
            meta: Some(recounted(self.meta, item, position)),
        }
    }

    /// The rows with an item's priority changed where it stands.
    pub open spec fn repriced(self, item: ItemId, priority: Priority) -> Rows {
        Rows {
            nodes: self.nodes.insert(item, Node { priority, ..self.nodes[item] }),
            meta: self.meta,
        }
    }

    /// Whether an item's neighbours let it stand where it is at `priority`.
    pub open spec fn stays(self, item: ItemId, priority: Priority) -> bool {
        admits(
            priority,
            row_of(self.nodes, self.nodes[item].prev),
            row_of(self.nodes, self.nodes[item].next),
        )
    }

    /// The place that the repair of a hint finds for an item of `priority`, and the steps that it
    /// takes. A hint that names the two neighbours of a gap costs nothing, any other a step.
    pub open spec fn repaired(
        self,
        priority: Priority,
        hint: Position,
        budget: u32,
    ) -> Result<(Position, u32), ListError> {
        let start = led_to(self.nodes, self.meta, hint);
        if start == hint {
            walked(self.nodes, priority, start, 0, budget)
        } else if budget == 0 {
            Err(ListError::InvalidPositionHints)
        } else {
            walked(self.nodes, priority, start, 1, budget)
        }
    }

    /// How inserting `item` ends, and the rows after it. The place that the walk finds is taken if
    /// its neighbours are linked to each other and admit the item, as they always are in a list.
    pub open spec fn inserted(
        self,
        item: ItemId,
        priority: Priority,
        hint: Position,
        budget: u32,
    ) -> (Result<u32, ListError>, Rows) {
        if self.nodes.contains_key(item) {
            (Err(ListError::ItemAlreadyExists), self)
        } else {
            match self.repaired(priority, hint, budget) {
                Ok((position, steps)) => if self.meta matches Some(meta) && meta.len == u32::MAX {
                    (Err(ListError::ListTooLong), self)
                } else if !insertable(self.nodes, self.meta, priority, position) {
                    (Err(ListError::CorruptList), self)
                } else {
                    (Ok(steps), self.with(item, priority, position))
                },
                Err(error) => (Err(error), self),
            }
        }
    }

    /// Whether inserting `item` ends with `result` and the rows `after`. A list then holds the item
    /// where its priority belongs.
    pub open spec fn inserts(
        self,
        item: ItemId,
        priority: Priority,
        hint: Position,
        budget: u32,
        result: Result<u32, ListError>,
        after: Rows,
    ) -> bool {
        &&& (result, after) == self.inserted(item, priority, hint, budget)
        &&& self.consistent() && !self.nodes.contains_key(item) ==> {
            let steps = self.repair_steps(priority, hint);
            if steps > budget {
                result == Err::<u32, ListError>(ListError::InvalidPositionHints)
            } else if self.order().len() >= u32::MAX {
                result == Err::<u32, ListError>(ListError::ListTooLong)
            } else {
                &&& result == Ok::<u32, ListError>(steps as u32)
                &&& after == self.with(item, priority, self.place(priority))
                &&& after.chains(self.order().insert(self.rank(priority), item))
            }
        }
    }

    /// Whether removing `item` ends with `result` and the rows `after`.
    pub open spec fn removes(self, item: ItemId, result: Result<Priority, ListError>, after: Rows) -> bool {
        &&& if !self.nodes.contains_key(item) {
            result == Err::<Priority, ListError>(ListError::ItemNotFound) && after == self
        } else if !removable(self.nodes, self.meta, item) {
            result == Err::<Priority, ListError>(ListError::CorruptList) && after == self
        } else {
            &&& result == Ok::<Priority, ListError>(self.nodes[item].priority)
            &&& after == self.without(item)
        }
        &&& self.consistent() ==> {
            &&& result is Ok == self.order().contains(item)
            &&& result is Ok ==> after.chains(self.order().remove(self.order().index_of(item)))
        }
    }

    /// Whether removing the tail ends with `result` and the rows `after`.
    pub open spec fn pops(
        self,
        result: Result<Option<(ItemId, Priority)>, ListError>,
        after: Rows,
    ) -> bool {
        &&& match self.meta {
            None => result == Ok::<Option<(ItemId, Priority)>, ListError>(None) && after == self,
            Some(meta) => if meta.tail matches Some(tail) && self.nodes.contains_key(tail)
                && removable(self.nodes, self.meta, tail) {
                let tail = meta.tail->0;
                &&& result == Ok::<Option<(ItemId, Priority)>, ListError>(
                    Some((tail, self.nodes[tail].priority)),
                )
                &&& after == self.without(tail)
            } else {
                &&& result == Err::<Option<(ItemId, Priority)>, ListError>(ListError::CorruptList)
                &&& after == self
            },
        }
        &&& self.consistent() ==> {
            &&& result is Ok
            &&& self.order().len() > 0 ==> {
                &&& result == Ok::<Option<(ItemId, Priority)>, ListError>(
                    Some((self.order().last(), self.nodes[self.order().last()].priority)),
                )
                &&& after.chains(self.order().drop_last())
            }
        }
    }

    /// How changing an item's priority ends, and the rows after it: nothing changes at the stored
    /// priority, the row alone where the neighbours admit the new one, and else the item is taken
    /// out and inserted again. A failure leaves the rows as they were.
    pub open spec fn moved(
        self,
        item: ItemId,
        priority: Priority,
        hint: Position,
        budget: u32,
    ) -> (Result<Outcome, ListError>, Rows) {
        if !self.nodes.contains_key(item) {
            (Err(ListError::ItemNotFound), self)
        } else if self.nodes[item].priority == priority {
            (Ok(Outcome::NoOp), self)
        } else if !anchored_links(self.nodes, self.meta, item) {
            (Err(ListError::CorruptList), self)
        } else if self.stays(item, priority) {
            (Ok(Outcome::InPlace), self.repriced(item, priority))
        } else if !removable(self.nodes, self.meta, item) {
            (Err(ListError::CorruptList), self)
        } else {
            match self.without(item).inserted(item, priority, hint, budget) {
                (Ok(steps), after) => (Ok(Outcome::Relocated { steps }), after),
                (Err(error), _) => (Err(error), self),
            }
        }
    }

    /// Whether changing an item's priority ends with `result` and the rows `after`. A list then
    /// holds the item where its new priority belongs.
    pub open spec fn moves(
        self,
        item: ItemId,
        priority: Priority,
        hint: Position,
        budget: u32,
        result: Result<Outcome, ListError>,
        after: Rows,
    ) -> bool {
        &&& (result, after) == self.moved(item, priority, hint, budget)
        &&& self.consistent() && self.nodes.contains_key(item) && self.nodes[item].priority
            != priority ==> if self.stays(item, priority) {
            &&& result == Ok::<Outcome, ListError>(Outcome::InPlace)
            &&& after.chains(self.order())
        } else {
            let rest = self.without(item);
            let steps = rest.repair_steps(priority, hint);
            if steps > budget {
                result == Err::<Outcome, ListError>(ListError::InvalidPositionHints)
            } else {
                &&& result == Ok::<Outcome, ListError>(Outcome::Relocated { steps: steps as u32 })
                &&& after == rest.with(item, priority, rest.place(priority))
                &&& rest.chains(self.order().remove(self.order().index_of(item)))
                &&& after.chains(rest.order().insert(rest.rank(priority), item))
            }
        }
    }

    /// On the rows of a list, the repair of a hint finds the right place, in the steps that lie
    /// between the hint and it.
    #[verifier::spinoff_prover]
    pub proof fn lemma_repaired_on_a_list(self, priority: Priority, hint: Position, budget: u32)
        requires
            self.consistent(),
        ensures
            self.repaired(priority, hint, budget) == (if self.repair_steps(priority, hint)
                <= budget {
                Ok((self.place(priority), self.repair_steps(priority, hint) as u32))
            } else {
                Err::<(Position, u32), ListError>(ListError::InvalidPositionHints)
            }),
    {
        let order = self.order();
        assert(self.chains(order));
        let gap = anchor(order, hint);
        lemma_hint_on_a_list(self.nodes, self.meta, order, hint);
        lemma_rank(self.nodes, order, priority);
        lemma_walk_on_a_list(self.nodes, order, priority, gap, 0, budget);
        if budget > 0 {
            lemma_walk_on_a_list(self.nodes, order, priority, gap, 1, budget);
        }
    }

    /// The items' order is the one in which the rows are chained.
    pub proof fn lemma_order(self, order: Seq<ItemId>)
        requires
            self.chains(order),
        ensures
            self.consistent(),
            self.order() == order,
    {
        lemma_order_is_unique(self.nodes, self.meta, self.order(), order);
    }
}

} // verus!
