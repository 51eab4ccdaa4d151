//! Soundness of a list's rows.

use crate::linked_list::list::SortedList;
use crate::linked_list::rows::{at, before, counted_as, linked_as, Nodes, Rows};
use crate::linked_list::types::{ItemId, ListMeta, Node};
use vstd::prelude::*;

verus! {

/// What stored rows contradict.
#[derive(Clone, Copy, PartialEq, Eq, Structural, Debug)]
pub enum Violation {
    /// Items' rows without the list's row.
    NodesWithoutMeta,
    /// The list's row without items' rows.
    MetaWithoutNodes,
    /// The list's row names no head.
    HeadIsNone,
    /// The list's row names no tail.
    TailIsNone,
    /// The list's row counts no items.
    LenIsZero,
    /// The head has no row.
    HeadMissing,
    /// The tail has no row.
    TailMissing,
    /// The head has a head-side neighbour.
    HeadHasPrev,
    /// The tail has a tail-side neighbour.
    TailHasNext,
    /// Tail-side links lead on beyond the items that the list's row counts.
    ForwardExceeded,
    /// A tail-side link names an item without a row.
    ForwardMissing,
    /// A head-side link does not lead back.
    ForwardPrev,
    /// An item has a higher priority than the one before it.
    PrioritiesIncrease,
    /// The list's row does not count the items that tail-side links lead through.
    ForwardCount,
    /// Head-side links lead on beyond the items that the list's row counts.
    ReverseExceeded,
    /// A head-side link names an item without a row.
    ReverseMissing,
    /// Head-side links lead through another number of items than tail-side links.
    ReverseCount,
    /// Head-side links lead through other items than tail-side links.
    ReverseDiffers,
    /// Rows that no link leads to.
    Orphans,
}

impl Violation {
    /// The violation in words.
    pub fn message(&self) -> (text: &'static str)
        ensures
            text@ == (match *self {
                Violation::NodesWithoutMeta => "ListNodes present without ListMetas",
                Violation::MetaWithoutNodes => "ListMetas present without ListNodes",
                Violation::HeadIsNone => "ListMetas.head is None",
                Violation::TailIsNone => "ListMetas.tail is None",
                Violation::LenIsZero => "ListMetas.len is zero on present row",
                Violation::HeadMissing => "ListMetas.head points to missing node",
                Violation::TailMissing => "ListMetas.tail points to missing node",
                Violation::HeadHasPrev => "head node has non-None prev",
                Violation::TailHasNext => "tail node has non-None next",
                Violation::ForwardExceeded =>
                "forward walk exceeded ListMetas.len + 1 (cycle or undercounted len)",
                Violation::ForwardMissing => "forward walk: missing node",
                Violation::ForwardPrev => "forward walk: node.prev != expected",
                Violation::PrioritiesIncrease => "priorities not non-increasing head→tail",
                Violation::ForwardCount => "forward walk count != ListMetas.len",
                Violation::ReverseExceeded =>
                "reverse walk exceeded ListMetas.len + 1 (cycle or undercounted len)",
                Violation::ReverseMissing => "reverse walk: missing node",
                Violation::ReverseCount => "reverse walk length != forward walk length",
                Violation::ReverseDiffers => "reverse walk does not equal forward walk reversed",
                Violation::Orphans =>
                "orphan ListNodes rows: total count differs from chain length",
            })@,
    {
        match self {
            Violation::NodesWithoutMeta => "ListNodes present without ListMetas",
            Violation::MetaWithoutNodes => "ListMetas present without ListNodes",
            Violation::HeadIsNone => "ListMetas.head is None",
            Violation::TailIsNone => "ListMetas.tail is None",
            Violation::LenIsZero => "ListMetas.len is zero on present row",
            Violation::HeadMissing => "ListMetas.head points to missing node",
            Violation::TailMissing => "ListMetas.tail points to missing node",
            Violation::HeadHasPrev => "head node has non-None prev",
            Violation::TailHasNext => "tail node has non-None next",
            Violation::ForwardExceeded =>
            "forward walk exceeded ListMetas.len + 1 (cycle or undercounted len)",
            Violation::ForwardMissing => "forward walk: missing node",
            Violation::ForwardPrev => "forward walk: node.prev != expected",
            Violation::PrioritiesIncrease => "priorities not non-increasing head→tail",
            Violation::ForwardCount => "forward walk count != ListMetas.len",
            Violation::ReverseExceeded =>
            "reverse walk exceeded ListMetas.len + 1 (cycle or undercounted len)",
            Violation::ReverseMissing => "reverse walk: missing node",
            Violation::ReverseCount => "reverse walk length != forward walk length",
            Violation::ReverseDiffers => "reverse walk does not equal forward walk reversed",
            Violation::Orphans => "orphan ListNodes rows: total count differs from chain length",
        }
    }
}

/// The items that tail-side links lead through from `cursor` on, behind those in `done`, or the
/// first contradiction on the way.
pub open spec fn forward_walk(
    nodes: Nodes,
    cursor: Option<ItemId>,
    done: Seq<ItemId>,
    cap: nat,
) -> Result<Seq<ItemId>, Violation>
    decreases cap - done.len(),
{
    match cursor {
        None => Ok(done),
        Some(item) => if done.len() >= cap {
            Err(Violation::ForwardExceeded)
        } else if !nodes.contains_key(item) {
            Err(Violation::ForwardMissing)
        } else if nodes[item].prev != before(done, done.len() as int) {
            Err(Violation::ForwardPrev)
        } else if done.len() > 0 && nodes[item].priority > nodes[done.last()].priority {
            Err(Violation::PrioritiesIncrease)
        } else {
            forward_walk(nodes, nodes[item].next, done.push(item), cap)
        },
    }
}

/// The items that head-side links lead through from `cursor` on, behind those in `done`, or the
/// first contradiction on the way.
pub open spec fn reverse_walk(
    nodes: Nodes,
    cursor: Option<ItemId>,
    done: Seq<ItemId>,
    cap: nat,
) -> Result<Seq<ItemId>, Violation>
    decreases cap - done.len(),
{
    match cursor {
        None => Ok(done),
        Some(item) => if done.len() >= cap {
            Err(Violation::ReverseExceeded)
        } else if !nodes.contains_key(item) {
            Err(Violation::ReverseMissing)
        } else {
            reverse_walk(nodes, nodes[item].prev, done.push(item), cap)
        },
    }
}

/// Nodes that a walk may visit on a list that counts `len` items.
pub open spec fn walk_cap(len: u32) -> nat {
    if len == u32::MAX {
        len as nat
    } else {
        (len + 1) as nat
    }
}

/// The first thing that a list's ends contradict, given its row.
pub open spec fn ends_violation(nodes: Nodes, meta: ListMeta) -> Option<Violation> {
    match (meta.head, meta.tail) {
        (None, _) => Some(Violation::HeadIsNone),
        (Some(_), None) => Some(Violation::TailIsNone),
        (Some(head), Some(tail)) => if meta.len == 0 {
            Some(Violation::LenIsZero)
        } else if !nodes.contains_key(head) {
            Some(Violation::HeadMissing)
        } else if !nodes.contains_key(tail) {
            Some(Violation::TailMissing)
        } else if nodes[head].prev is Some {
            Some(Violation::HeadHasPrev)
        } else if nodes[tail].next is Some {
            Some(Violation::TailHasNext)
        } else {
            None
        },
    }
}

/// The first thing that the walks through a list contradict, given its row.
pub open spec fn walks_violation(nodes: Nodes, meta: ListMeta) -> Option<Violation> {
    let cap = walk_cap(meta.len);
    match forward_walk(nodes, meta.head, Seq::empty(), cap) {
        Err(violation) => Some(violation),
        Ok(forward) => if forward.len() != meta.len {
            Some(Violation::ForwardCount)
        } else {
            match reverse_walk(nodes, meta.tail, Seq::empty(), cap) {
                Err(violation) => Some(violation),
                Ok(reverse) => if reverse.len() != forward.len() {
                    Some(Violation::ReverseCount)
                } else if reverse.reverse() != forward {
                    Some(Violation::ReverseDiffers)
                } else if nodes.dom().len() != meta.len && !(meta.len == u32::MAX
                    && nodes.dom().len() > u32::MAX) {
                    Some(Violation::Orphans)
                } else {
                    None
                },
            }
        },
    }
}

/// The first thing that a list's rows contradict.
pub open spec fn violation(nodes: Nodes, meta: Option<ListMeta>) -> Option<Violation> {
    match meta {
        None => if nodes.dom().len() > 0 {
            Some(Violation::NodesWithoutMeta)
        } else {
            None
        },
        Some(meta) => if nodes.dom().len() == 0 {
            Some(Violation::MetaWithoutNodes)
        } else if ends_violation(nodes, meta) is Some {
            ends_violation(nodes, meta)
        } else {
            walks_violation(nodes, meta)
        },
    }
}

impl SortedList {
    /// Walks the tail-side links from `head` on.
    fn walk_forward(&self, head: Option<ItemId>, cap: usize) -> (walk: Result<Vec<ItemId>, Violation>)
        ensures
            match walk {
                Ok(items) => forward_walk(self.nodes@, head, Seq::empty(), cap as nat) == Ok::<
                    Seq<ItemId>,
                    Violation,
                >(items@),
                Err(violation) => forward_walk(self.nodes@, head, Seq::empty(), cap as nat)
                    == Err::<Seq<ItemId>, Violation>(violation),
            },
    {
        let mut items: Vec<ItemId> = Vec::new();
        let mut cursor = head;
        let mut last: Option<(ItemId, Node)> = None;
        let ghost walk = forward_walk(self.nodes@, head, Seq::empty(), cap as nat);
        assert(items@ =~= Seq::empty());
        loop
            invariant
                walk == forward_walk(self.nodes@, head, Seq::empty(), cap as nat),
                walk == forward_walk(self.nodes@, cursor, items@, cap as nat),
                items@.len() <= cap,
                last == (if items@.len() == 0 {
                    None
                } else {
                    Some((items@.last(), self.nodes@[items@.last()]))
                }),
            decreases cap - items@.len(),
        {
            let item = match cursor {
                Some(item) => item,
                None => {
                    return Ok(items);
                },
            };
            if items.len() >= cap {
                return Err(Violation::ForwardExceeded);
            }
            let node = match self.nodes.get(item) {
                Some(node) => node,
                None => {
                    return Err(Violation::ForwardMissing);
                },
            };
            let (prev, rises) = match last {
                Some((prev, row)) => (Some(prev), node.priority > row.priority),
                None => (None, false),
            };
            if node.prev != prev {
                return Err(Violation::ForwardPrev);
            }
            if rises {
                return Err(Violation::PrioritiesIncrease);
            }
            items.push(item);
            last = Some((item, node));
            cursor = node.next;
        }
    }

    /// Walks the head-side links from `tail` on.
    fn walk_reverse(&self, tail: Option<ItemId>, cap: usize) -> (walk: Result<Vec<ItemId>, Violation>)
        ensures
            match walk {
                Ok(items) => reverse_walk(self.nodes@, tail, Seq::empty(), cap as nat) == Ok::<
                    Seq<ItemId>,
                    Violation,
                >(items@),
                Err(violation) => reverse_walk(self.nodes@, tail, Seq::empty(), cap as nat)
                    == Err::<Seq<ItemId>, Violation>(violation),
            },
    {
        let mut items: Vec<ItemId> = Vec::new();
        let mut cursor = tail;
        let ghost walk = reverse_walk(self.nodes@, tail, Seq::empty(), cap as nat);
        assert(items@ =~= Seq::empty());
        loop
            invariant
                walk == reverse_walk(self.nodes@, tail, Seq::empty(), cap as nat),
                walk == reverse_walk(self.nodes@, cursor, items@, cap as nat),
                items@.len() <= cap,
            decreases cap - items@.len(),
        {
            let item = match cursor {
                Some(item) => item,
                None => {
                    return Ok(items);
                },
            };
            if items.len() >= cap {
                return Err(Violation::ReverseExceeded);
            }
            let node = match self.nodes.get(item) {
                Some(node) => node,
                None => {
                    return Err(Violation::ReverseMissing);
                },
            };
            items.push(item);
            cursor = node.prev;
        }
    }

    /// Whether one walk is the other reversed.
    fn mirrors(reverse: &Vec<ItemId>, forward: &Vec<ItemId>) -> (mirrored: bool)
        requires
            reverse@.len() == forward@.len(),
        ensures
            mirrored == (reverse@.reverse() == forward@),
    {
        let mut i: usize = 0;
        while i < forward.len()
            invariant
                reverse@.len() == forward@.len(),
                i <= forward@.len(),
                forall|k: int| 0 <= k < i ==> reverse@.reverse()[k] == forward@[k],
            decreases forward@.len() - i,
        {
            if reverse[reverse.len() - 1 - i] != forward[i] {
                assert(reverse@.reverse()[i as int] != forward@[i as int]);
                return false;
            }
            i = i + 1;
        }
        assert(reverse@.reverse() =~= forward@);
        true
    }

    /// Checks that the rows hold a list. The first contradiction found is the error.
    pub fn try_state_list(&self) -> (checked: Result<(), Violation>)
        ensures
            checked == (match violation(self.nodes@, self.meta) {
                Some(violation) => Err::<(), Violation>(violation),
                None => Ok(()),
            }),
    {
        let rows = self.nodes.len();
        let meta = match self.meta {
            Some(meta) => meta,
            None => {
                return if rows > 0 {
                    Err(Violation::NodesWithoutMeta)
                } else {
                    Ok(())
                };
            },
        };
        if rows == 0 {
            return Err(Violation::MetaWithoutNodes);
        }
        let head = match meta.head {
            Some(head) => head,
            None => {
                return Err(Violation::HeadIsNone);
            },
        };
        let tail = match meta.tail {
            Some(tail) => tail,
            None => {
                return Err(Violation::TailIsNone);
            },
        };
        if meta.len == 0 {
            return Err(Violation::LenIsZero);
        }
        let head_node = match self.nodes.get(head) {
            Some(node) => node,
            None => {
                return Err(Violation::HeadMissing);
            },
        };
        let tail_node = match self.nodes.get(tail) {
            Some(node) => node,
            None => {
                return Err(Violation::TailMissing);
            },
        };
        if head_node.prev.is_some() {
            return Err(Violation::HeadHasPrev);
        }
        if tail_node.next.is_some() {
            return Err(Violation::TailHasNext);
        }
        let stored: usize = meta.len as usize;
        let cap: usize = meta.len.saturating_add(1) as usize;
        let forward = match self.walk_forward(meta.head, cap) {
            Ok(forward) => forward,
            Err(violation) => {
                return Err(violation);
            },
        };
        if forward.len() != stored {
            return Err(Violation::ForwardCount);
        }
        let reverse = match self.walk_reverse(meta.tail, cap) {
            Ok(reverse) => reverse,
            Err(violation) => {
                return Err(violation);
            },
        };
        if reverse.len() != forward.len() {
            return Err(Violation::ReverseCount);
        }
        if !Self::mirrors(&reverse, &forward) {
            return Err(Violation::ReverseDiffers);
        }
        let limit: usize = u32::MAX as usize;
        let total: usize = if rows > limit {
            limit
        } else {
            rows
        };
        if total != stored {
            return Err(Violation::Orphans);
        }
        Ok(())
    }
}

/// Whether `done` is linked, sorted and followed by `cursor`.
spec fn linked_prefix(nodes: Nodes, done: Seq<ItemId>, cursor: Option<ItemId>) -> bool {
    &&& forall|i: int| 0 <= i < done.len() ==> nodes.contains_key(#[trigger] done[i])
    &&& forall|i: int| 0 <= i < done.len() ==> nodes[#[trigger] done[i]].prev == before(done, i)
    &&& forall|i: int|
        0 <= i < done.len() ==> nodes[#[trigger] done[i]].next == (if i + 1 < done.len() {
            at(done, i + 1)
        } else {
            cursor
        })
    &&& forall|i: int, j: int|
        0 <= i < j < done.len() ==> nodes[#[trigger] done[i]].priority
            >= nodes[#[trigger] done[j]].priority
}

/// A walk that meets no contradiction goes through linked items.
#[verifier::spinoff_prover]
proof fn lemma_forward_walk_is_linked(
    nodes: Nodes,
    cursor: Option<ItemId>,
    done: Seq<ItemId>,
    cap: nat,
)
    requires
        linked_prefix(nodes, done, cursor),
        forward_walk(nodes, cursor, done, cap) is Ok,
    ensures
        linked_prefix(nodes, forward_walk(nodes, cursor, done, cap)->Ok_0, None),
        done.len() > 0 ==> forward_walk(nodes, cursor, done, cap)->Ok_0.len() > 0 && forward_walk(
            nodes,
            cursor,
            done,
            cap,
        )->Ok_0[0] == done[0],
        done.len() == 0 && cursor is Some ==> forward_walk(nodes, cursor, done, cap)->Ok_0.len() > 0
            && Some(forward_walk(nodes, cursor, done, cap)->Ok_0[0]) == cursor,
    decreases cap - done.len(),
{
    if let Some(item) = cursor {
        let next = nodes[item].next;
        let more = done.push(item);
        assert(linked_prefix(nodes, more, next)) by {
            assert forall|i: int| 0 <= i < more.len() implies nodes[#[trigger] more[i]].prev
                == before(more, i) by {
                if i < done.len() {
                    assert(more[i] == done[i]);
                }
            }
            assert forall|i: int| 0 <= i < more.len() implies nodes[#[trigger] more[i]].next == (
            if i + 1 < more.len() {
                at(more, i + 1)
            } else {
                next
            }) by {
                if i < done.len() {
                    assert(more[i] == done[i]);
                }
            }
            assert forall|i: int, j: int| 0 <= i < j < more.len() implies nodes[
                #[trigger] more[i]
            ].priority >= nodes[#[trigger] more[j]].priority by {
                assert(more[i] == done[i]);
                if j < done.len() {
                    assert(more[j] == done[j]);
                } else if i < done.len() - 1 {
                    assert(nodes[done[i]].priority >= nodes[done[done.len() - 1]].priority);
                }
            }
        }
        lemma_forward_walk_is_linked(nodes, next, more, cap);
    }
}

/// Items linked to distinct neighbours are distinct.
proof fn lemma_linked_items_differ(nodes: Nodes, items: Seq<ItemId>, i: int, j: int)
    requires
        linked_prefix(nodes, items, None),
        0 <= i < j < items.len(),
    ensures
        items[i] != items[j],
    decreases i,
{
    if items[i] == items[j] {
        assert(nodes[items[i]].prev == before(items, i));
        assert(nodes[items[j]].prev == before(items, j));
        if i > 0 {
            lemma_linked_items_differ(nodes, items, i - 1, j - 1);
        }
    }
}

/// A walk starts with the items that are already done.
proof fn lemma_reverse_walk_extends(
    nodes: Nodes,
    cursor: Option<ItemId>,
    done: Seq<ItemId>,
    cap: nat,
)
    requires
        reverse_walk(nodes, cursor, done, cap) is Ok,
        done.len() > 0,
    ensures
        reverse_walk(nodes, cursor, done, cap)->Ok_0.len() >= done.len(),
        reverse_walk(nodes, cursor, done, cap)->Ok_0[0] == done[0],
    decreases cap - done.len(),
{
    if let Some(item) = cursor {
        lemma_reverse_walk_extends(nodes, nodes[item].prev, done.push(item), cap);
    }
}

/// The tail-side links of a list lead through its items.
proof fn lemma_forward_walk_of_list(nodes: Nodes, order: Seq<ItemId>, i: int, cap: nat)
    requires
        linked_as(nodes, order),
        0 <= i <= order.len() <= cap,
    ensures
        forward_walk(nodes, at(order, i), order.take(i), cap) == Ok::<Seq<ItemId>, Violation>(order),
    decreases order.len() - i,
{
    if i < order.len() {
        let item = order[i];
        assert(nodes.contains_key(item));
        assert(nodes[item].prev == before(order, i) && nodes[item].next == at(order, i + 1));
        if i > 0 {
            assert(order.take(i).last() == order[i - 1]);
            assert(nodes[order[i - 1]].priority >= nodes[item].priority);
        }
        assert(order.take(i).push(item) =~= order.take(i + 1));
        lemma_forward_walk_of_list(nodes, order, i + 1, cap);
    } else {
        assert(order.take(i) =~= order);
    }
}

/// The head-side links of a list lead back through its items.
proof fn lemma_reverse_walk_of_list(nodes: Nodes, order: Seq<ItemId>, i: int, cap: nat)
    requires
        linked_as(nodes, order),
        0 <= i <= order.len() <= cap,
    ensures
        reverse_walk(nodes, before(order, i), order.skip(i).reverse(), cap) == Ok::<
            Seq<ItemId>,
            Violation,
        >(order.reverse()),
    decreases i,
{
    if i > 0 {
        let item = order[i - 1];
        assert(nodes.contains_key(item));
        assert(nodes[item].prev == before(order, i - 1));
        assert(order.skip(i).reverse().push(item) =~= order.skip(i - 1).reverse());
        lemma_reverse_walk_of_list(nodes, order, i - 1, cap);
    } else {
        assert(order.skip(i) =~= order);
    }
}

/// The rows of a list are as many as its items.
proof fn lemma_rows_of_list(nodes: Nodes, order: Seq<ItemId>)
    requires
        linked_as(nodes, order),
    ensures
        nodes.dom().finite(),
        nodes.dom().len() == order.len(),
{
    assert(nodes.dom() =~= order.to_set()) by {
        assert forall|item: ItemId| nodes.dom().contains(item) == order.to_set().contains(item) by {
            if nodes.contains_key(item) {
                assert(order.contains(item));
            }
            if order.contains(item) {
                assert(nodes.contains_key(order[order.index_of(item)]));
            }
        }
    }
    order.unique_seq_to_set();
    vstd::seq_lib::seq_to_set_is_finite(order);
}

/// The rows of a list contradict nothing.
pub proof fn law_list_has_no_violation(list: Rows)
    requires
        list.consistent(),
    ensures
        violation(list.nodes, list.meta) is None,
{
    let nodes = list.nodes;
    let order = list.order();
    assert(list.chains(order));
    lemma_rows_of_list(nodes, order);
    if order.len() > 0 {
        let meta = list.meta->0;
        let cap = walk_cap(meta.len);
        let last = order.len() - 1;
        assert(nodes.contains_key(order[0]) && nodes.contains_key(order[last]));
        assert(nodes[order[0]].prev == before(order, 0));
        assert(nodes[order[last]].next == at(order, last + 1));
        lemma_forward_walk_of_list(nodes, order, 0, cap);
        assert(order.take(0) =~= Seq::empty());
        lemma_reverse_walk_of_list(nodes, order, order.len() as int, cap);
        assert(order.skip(order.len() as int).reverse() =~= Seq::empty());
        assert(order.reverse().reverse() =~= order);
    }
}

/// Rows that contradict nothing are those of a list.
///
/// Rows beyond the largest count that a list's row can hold are left out: they are counted as that
/// count, and so are not told from a full list's.
pub proof fn law_sound_rows_are_a_list(list: Rows)
    requires
        violation(list.nodes, list.meta) is None,
        list.nodes.dom().finite(),
        list.nodes.dom().len() <= u32::MAX,
    ensures
        list.consistent(),
{
    let nodes = list.nodes;
    if let Some(meta) = list.meta {
        let cap = walk_cap(meta.len);
        let empty = Seq::<ItemId>::empty();
        let order = forward_walk(nodes, meta.head, empty, cap)->Ok_0;
        let reverse = reverse_walk(nodes, meta.tail, empty, cap)->Ok_0;
        let tail = meta.tail->0;
        assert(linked_prefix(nodes, empty, meta.head));
        lemma_forward_walk_is_linked(nodes, meta.head, empty, cap);
        assert(empty.push(tail)[0] == tail);
        lemma_reverse_walk_extends(nodes, nodes[tail].prev, empty.push(tail), cap);
        assert(reverse[0] == tail);
        assert(order.last() == reverse.reverse()[reverse.len() - 1]);
        assert forall|i: int, j: int| 0 <= i < order.len() && 0 <= j < order.len() && i != j implies
            order[i] != order[j] by {
            if i < j {
                lemma_linked_items_differ(nodes, order, i, j);
            } else {
                lemma_linked_items_differ(nodes, order, j, i);
            }
        }
        order.unique_seq_to_set();
        vstd::seq_lib::seq_to_set_is_finite(order);
        assert(order.to_set().subset_of(nodes.dom())) by {
            assert forall|item: ItemId| order.to_set().contains(item) implies nodes.dom().contains(
                item,
            ) by {
                assert(nodes.contains_key(order[order.index_of(item)]));
            }
        }
        vstd::set_lib::lemma_subset_equality(order.to_set(), nodes.dom());
        assert forall|item: ItemId| #[trigger] nodes.contains_key(item) implies order.contains(
            item,
        ) by {
            assert(order.to_set().contains(item));
        }
        assert(linked_as(nodes, order));
        assert(counted_as(list.meta, order));
        assert(list.chains(order));
    } else {
        let order = Seq::<ItemId>::empty();
        assert forall|item: ItemId| #[trigger] nodes.contains_key(item) implies order.contains(
            item,
        ) by {
            assert(nodes.dom() =~= Set::empty());
        }
        assert(list.chains(order));
    }
}

/// Whether the tail-side link of `a` names `b`.
pub open spec fn leads_to(nodes: Nodes, a: ItemId, b: ItemId) -> bool {
    nodes.contains_key(a) && nodes[a].next == Some(b)
}

/// Whether the head-side link of `a` names `b`.
pub open spec fn leads_back_to(nodes: Nodes, a: ItemId, b: ItemId) -> bool {
    nodes.contains_key(a) && nodes[a].prev == Some(b)
}

/// What a walk along tail-side links finds is in the rows.
proof fn lemma_forward_fault(nodes: Nodes, cursor: Option<ItemId>, done: Seq<ItemId>, cap: nat)
    requires
        done.len() > 0 ==> nodes.contains_key(done.last()) && nodes[done.last()].next == cursor,
        done.len() == 0 ==> cursor is Some && nodes.contains_key(cursor->0)
            && nodes[cursor->0].prev is None,
    ensures
        ({
            let walk = forward_walk(nodes, cursor, done, cap);
            &&& walk == Err::<Seq<ItemId>, Violation>(Violation::ForwardMissing) ==> exists|
                a: ItemId,
                b: ItemId,
            | #[trigger] leads_to(nodes, a, b) && !nodes.contains_key(b)
            &&& walk == Err::<Seq<ItemId>, Violation>(Violation::ForwardPrev) ==> exists|
                a: ItemId,
                b: ItemId,
            | #[trigger] leads_to(nodes, a, b) && nodes.contains_key(b) && nodes[b].prev != Some(a)
            &&& walk == Err::<Seq<ItemId>, Violation>(Violation::PrioritiesIncrease) ==> exists|
                a: ItemId,
                b: ItemId,
            | #[trigger]
                leads_to(nodes, a, b) && nodes.contains_key(b) && nodes[b].priority
                    > nodes[a].priority
            &&& walk matches Err(fault) ==> {
                ||| fault == Violation::ForwardMissing
                ||| fault == Violation::ForwardPrev
                ||| fault == Violation::PrioritiesIncrease
                ||| fault == Violation::ForwardExceeded
            }
        }),
    decreases cap - done.len(),
{
    if let Some(item) = cursor {
        if done.len() > 0 {
            assert(leads_to(nodes, done.last(), item));
        }
        if done.len() < cap && nodes.contains_key(item) {
            assert(done.push(item).last() == item);
            lemma_forward_fault(nodes, nodes[item].next, done.push(item), cap);
        }
    }
}

/// What a walk along head-side links finds is in the rows.
proof fn lemma_reverse_fault(nodes: Nodes, cursor: Option<ItemId>, done: Seq<ItemId>, cap: nat)
    requires
        done.len() > 0 ==> nodes.contains_key(done.last()) && nodes[done.last()].prev == cursor,
        done.len() == 0 ==> cursor is Some && nodes.contains_key(cursor->0),
    ensures
        ({
            let walk = reverse_walk(nodes, cursor, done, cap);
            &&& walk == Err::<Seq<ItemId>, Violation>(Violation::ReverseMissing) ==> exists|
                a: ItemId,
                b: ItemId,
            | #[trigger] leads_back_to(nodes, a, b) && !nodes.contains_key(b)
            &&& walk matches Err(fault) ==> fault == Violation::ReverseMissing || fault
                == Violation::ReverseExceeded
        }),
    decreases cap - done.len(),
{
    if let Some(item) = cursor {
        if done.len() > 0 {
            assert(leads_back_to(nodes, done.last(), item));
        }
        if done.len() < cap && nodes.contains_key(item) {
            assert(done.push(item).last() == item);
            lemma_reverse_fault(nodes, nodes[item].prev, done.push(item), cap);
        }
    }
}

/// A reported contradiction is one that the rows show: a link to an item without a row, a link that
/// does not lead back, a priority above that of the item before, or rows that are not counted.
pub proof fn law_reported_contradiction_is_in_the_rows(list: Rows)
    ensures
        ({
            let nodes = list.nodes;
            match violation(nodes, list.meta) {
                Some(Violation::ForwardMissing) => exists|a: ItemId, b: ItemId| #[trigger]
                    leads_to(nodes, a, b) && !nodes.contains_key(b),
                Some(Violation::ForwardPrev) => exists|a: ItemId, b: ItemId| #[trigger]
                    leads_to(nodes, a, b) && nodes.contains_key(b) && nodes[b].prev != Some(a),
                Some(Violation::PrioritiesIncrease) => exists|a: ItemId, b: ItemId| #[trigger]
                    leads_to(nodes, a, b) && nodes.contains_key(b) && nodes[b].priority
                        > nodes[a].priority,
                Some(Violation::ReverseMissing) => exists|a: ItemId, b: ItemId| #[trigger]
                    leads_back_to(nodes, a, b) && !nodes.contains_key(b),
                Some(Violation::Orphans) => list.meta is Some && nodes.dom().len()
                    != list.meta->0.len,
                Some(Violation::NodesWithoutMeta) => list.meta is None && nodes.dom().len() > 0,
                Some(Violation::MetaWithoutNodes) => list.meta is Some && nodes.dom().len() == 0,
                Some(Violation::HeadIsNone) => list.meta is Some && list.meta->0.head is None,
                Some(Violation::TailIsNone) => list.meta is Some && list.meta->0.tail is None,
                Some(Violation::LenIsZero) => list.meta is Some && list.meta->0.len == 0,
                Some(_) => list.meta is Some,
                None => true,
            }
        }),
{
    if let Some(meta) = list.meta {
        if list.nodes.dom().len() > 0 && ends_violation(list.nodes, meta) is None {
            let cap = walk_cap(meta.len);
            lemma_forward_fault(list.nodes, meta.head, Seq::empty(), cap);
            lemma_reverse_fault(list.nodes, meta.tail, Seq::empty(), cap);
        }
    }
}

} // verus!
