//! Reads of a sorted list.

use crate::linked_list::list::SortedList;
use crate::linked_list::rows::{
    anchor, at, before, gap_position, lemma_rank, lemma_splice, lemma_splice_row, linked_as, rank,
    spliced, Nodes, Rows,
};
use crate::linked_list::types::{ItemId, Outcome, Position, Priority};
use vstd::prelude::*;

verus! {

/// At most `n` items that head-side links lead to, from `cursor` on.
pub open spec fn trail(nodes: Nodes, cursor: Option<ItemId>, n: nat) -> Seq<ItemId>
    decreases n,
{
    match cursor {
        Some(item) => if n == 0 {
            Seq::empty()
        } else {
            seq![item] + trail(
                nodes,
                if nodes.contains_key(item) {
                    nodes[item].prev
                } else {
                    None
                },
                (n - 1) as nat,
            )
        },
        None => Seq::empty(),
    }
}

/// The place of `priority` among the at most `left` items that tail-side links lead to, from
/// `cursor` on, behind `prev`, passing over `skip`.
pub open spec fn scanned(
    nodes: Nodes,
    priority: Priority,
    skip: Option<ItemId>,
    prev: Option<ItemId>,
    cursor: Option<ItemId>,
    left: nat,
) -> Position
    decreases left,
{
    match cursor {
        Some(item) => if left == 0 || !nodes.contains_key(item) {
            Position { prev, next: None }
        } else if skip == Some(item) {
            scanned(nodes, priority, skip, prev, nodes[item].next, (left - 1) as nat)
        } else if priority > nodes[item].priority {
            Position { prev, next: Some(item) }
        } else {
            scanned(nodes, priority, skip, Some(item), nodes[item].next, (left - 1) as nat)
        },
        None => Position { prev, next: None },
    }
}

impl Rows {
    /// The item of the highest priority.
    pub open spec fn head(self) -> Option<ItemId> {
        match self.meta {
            Some(meta) => meta.head,
            None => None,
        }
    }

    /// The item of the lowest priority.
    pub open spec fn tail(self) -> Option<ItemId> {
        match self.meta {
            Some(meta) => meta.tail,
            None => None,
        }
    }

    /// The number of items.
    pub open spec fn count(self) -> u32 {
        match self.meta {
            Some(meta) => meta.len,
            None => 0,
        }
    }

    /// An item's priority and neighbours.
    pub open spec fn node(self, item: ItemId) -> Option<(Priority, Position)> {
        if self.nodes.contains_key(item) {
            let row = self.nodes[item];
            Some((row.priority, Position { prev: row.prev, next: row.next }))
        } else {
            None
        }
    }

    /// The first `n` items from the tail on.
    pub open spec fn from_tail(self, n: u32) -> Seq<ItemId> {
        trail(self.nodes, self.tail(), smaller(n as int, self.count() as int) as nat)
    }

    /// The place that a scan from the head finds for `priority`, passing over `skip`. It visits one
    /// item more than the list counts at most, so that it ends on rows in a circle too.
    pub open spec fn scan(self, priority: Priority, skip: Option<ItemId>) -> Position {
        scanned(self.nodes, priority, skip, None, self.head(), (self.count() + 1) as nat)
    }

    /// Whether `steps` tells what inserting a new item of `priority` would take to repair `hint`.
    pub open spec fn tells_insert(
        self,
        priority: Priority,
        hint: Position,
        budget: u32,
        steps: u32,
    ) -> bool {
        steps == match self.repaired(priority, hint, budget) {
            Ok((_, needed)) => needed,
            Err(_) => infeasible(budget),
        }
    }

    /// Whether `steps` tells what moving an item to `priority` would take.
    pub open spec fn tells_move(
        self,
        item: ItemId,
        priority: Priority,
        hint: Position,
        budget: u32,
        steps: u32,
    ) -> bool {
        steps == match self.moved(item, priority, hint, budget).0 {
            Ok(Outcome::NoOp) => 0,
            Ok(Outcome::InPlace) => 0,
            Ok(Outcome::Relocated { steps: needed }) => needed,
            Err(_) => infeasible(budget),
        }
    }
}

/// One more than the budget, for a hint that cannot be repaired.
pub open spec fn infeasible(budget: u32) -> u32 {
    if budget == u32::MAX {
        budget
    } else {
        (budget + 1) as u32
    }
}

/// The smaller of two numbers.
pub open spec fn smaller(a: int, b: int) -> int {
    if a <= b {
        a
    } else {
        b
    }
}

/// Head-side links lead through the items from the tail on.
proof fn lemma_trail(nodes: Nodes, order: Seq<ItemId>, end: int, n: nat)
    requires
        linked_as(nodes, order),
        0 <= end <= order.len(),
    ensures
        trail(nodes, before(order, end), n) == order.take(end).reverse().take(
            smaller(n as int, end),
        ),
    decreases n,
{
    let expected = order.take(end).reverse().take(smaller(n as int, end));
    if end > 0 && n > 0 {
        let item = order[end - 1];
        assert(nodes.contains_key(item));
        assert(nodes[item].prev == before(order, end - 1));
        lemma_trail(nodes, order, end - 1, (n - 1) as nat);
        let rest = order.take(end - 1).reverse().take(smaller(n - 1, end - 1));
        assert(seq![item] + rest =~= expected);
    } else {
        assert(expected =~= Seq::empty());
    }
}

/// A scan over a list finds the right place.
proof fn lemma_scan(nodes: Nodes, order: Seq<ItemId>, priority: Priority, i: int, left: nat)
    requires
        linked_as(nodes, order),
        0 <= i <= rank(nodes, order, priority),
        left >= order.len() - i,
    ensures
        scanned(nodes, priority, None, before(order, i), at(order, i), left) == gap_position(
            order,
            rank(nodes, order, priority),
        ),
    decreases left,
{
    lemma_rank(nodes, order, priority);
    if i < order.len() {
        let item = order[i];
        assert(nodes.contains_key(item));
        if i < rank(nodes, order, priority) {
            assert(nodes[item].next == at(order, i + 1));
            lemma_scan(nodes, order, priority, i + 1, (left - 1) as nat);
        }
    }
}

/// The place that place `i` becomes once place `j` is taken out.
spec fn squeezed(j: int, i: int) -> int {
    if i <= j {
        i
    } else {
        i - 1
    }
}

/// Whether `to` is the right place of `priority` among the items but the one at place `j`.
spec fn splits_rest(nodes: Nodes, order: Seq<ItemId>, j: int, priority: Priority, to: int) -> bool {
    forall|k: int|
        0 <= k < order.len() && k != j ==> (nodes[#[trigger] order[k]].priority >= priority) == (
        squeezed(j, k) < to)
}

/// A scan over a list that passes over one item finds the right place among the others.
#[verifier::spinoff_prover]
proof fn lemma_scan_skipping(
    nodes: Nodes,
    order: Seq<ItemId>,
    j: int,
    priority: Priority,
    to: int,
    i: int,
    left: nat,
)
    requires
        linked_as(nodes, order),
        0 <= j < order.len(),
        0 <= i <= order.len(),
        left >= order.len() - i,
        squeezed(j, i) <= to < order.len(),
        splits_rest(nodes, order, j, priority, to),
    ensures
        scanned(
            nodes,
            priority,
            Some(order[j]),
            before(order.remove(j), squeezed(j, i)),
            at(order, i),
            left,
        ) == gap_position(order.remove(j), to),
    decreases left,
{
    let rest = order.remove(j);
    if i < order.len() {
        let item = order[i];
        assert(nodes.contains_key(item));
        assert(nodes[item].next == at(order, i + 1));
        if i == j {
            lemma_scan_skipping(nodes, order, j, priority, to, i + 1, (left - 1) as nat);
        } else {
            assert(item != order[j]);
            assert(rest[squeezed(j, i)] == item);
            if squeezed(j, i) < to {
                lemma_scan_skipping(nodes, order, j, priority, to, i + 1, (left - 1) as nat);
                assert(before(rest, squeezed(j, i + 1)) == Some(item));
            }
        }
    }
}

/// The right place once an item was taken out splits the other items by priority.
#[verifier::spinoff_prover]
proof fn lemma_rank_splits_rest(list: Rows, order: Seq<ItemId>, j: int, priority: Priority)
    requires
        list.chains(order),
        0 <= j < order.len(),
    ensures
        0 <= rank(spliced(list.nodes, order[j]), order.remove(j), priority) < order.len(),
        splits_rest(
            list.nodes,
            order,
            j,
            priority,
            rank(spliced(list.nodes, order[j]), order.remove(j), priority),
        ),
{
    let rest = order.remove(j);
    let without = spliced(list.nodes, order[j]);
    let to = rank(without, rest, priority);
    lemma_splice(list.nodes, list.meta, order, j);
    lemma_rank(without, rest, priority);
    assert forall|k: int| 0 <= k < order.len() && k != j implies (list.nodes[
        #[trigger] order[k]
    ].priority >= priority) == (squeezed(j, k) < to) by {
        let l = squeezed(j, k);
        lemma_splice_row(list.nodes, order, j, l);
        assert(rest[l] == order[k]);
    }
}

/// A scan over a list finds the place to which an item of it moves.
#[verifier::spinoff_prover]
proof fn lemma_scan_for_move(list: Rows, item: ItemId, priority: Priority)
    requires
        list.consistent(),
        list.nodes.contains_key(item),
    ensures
        list.scan(priority, Some(item)) == list.without(item).place(priority),
{
    let order = list.order();
    assert(list.chains(order));
    assert(order.contains(item));
    let j = order.index_of(item);
    let rest = order.remove(j);
    lemma_splice(list.nodes, list.meta, order, j);
    list.without(item).lemma_order(rest);
    lemma_rank_splits_rest(list, order, j, priority);
    lemma_scan_skipping(
        list.nodes,
        order,
        j,
        priority,
        rank(spliced(list.nodes, item), rest, priority),
        0,
        (order.len() + 1) as nat,
    );
}

/// The ends of a list are its first and last item, and it counts its items.
pub proof fn law_ends_of_a_list(list: Rows)
    requires
        list.consistent(),
    ensures
        list.head() == at(list.order(), 0),
        list.tail() == before(list.order(), list.order().len() as int),
        list.count() == list.order().len(),
        forall|item: ItemId| #[trigger]
            list.nodes.contains_key(item) == list.order().contains(item),
{
    let order = list.order();
    assert(list.chains(order));
    assert forall|item: ItemId| #[trigger] list.nodes.contains_key(item) == order.contains(item) by {
        if order.contains(item) {
            assert(list.nodes.contains_key(order[order.index_of(item)]));
        }
    }
}

/// The items from the tail on are the list's items, last first.
pub proof fn law_tail_first_is_the_order_reversed(list: Rows, n: u32)
    requires
        list.consistent(),
    ensures
        list.from_tail(n) == list.order().reverse().take(
            smaller(n as int, list.order().len() as int),
        ),
{
    let order = list.order();
    assert(list.chains(order));
    lemma_trail(
        list.nodes,
        order,
        order.len() as int,
        smaller(n as int, order.len() as int) as nat,
    );
    assert(order.take(order.len() as int) =~= order);
}

/// A place that was looked up for a new item is where the item belongs, and needs no repair.
pub proof fn law_found_place_needs_no_repair(list: Rows, priority: Priority)
    requires
        list.consistent(),
    ensures
        list.scan(priority, None) == list.place(priority),
        list.repair_steps(priority, list.scan(priority, None)) == 0,
{
    let order = list.order();
    assert(list.chains(order));
    lemma_rank(list.nodes, order, priority);
    lemma_scan(list.nodes, order, priority, 0, (order.len() + 1) as nat);
    lemma_place_needs_no_repair(list, order, priority);
}

/// A place that was looked up for an item of the list is where the item belongs among the others,
/// and needs no repair once the item is taken out.
pub proof fn law_found_re_insert_place_needs_no_repair(list: Rows, item: ItemId, priority: Priority)
    requires
        list.consistent(),
        list.nodes.contains_key(item),
    ensures
        list.scan(priority, Some(item)) == list.without(item).place(priority),
        list.without(item).repair_steps(priority, list.scan(priority, Some(item))) == 0,
{
    let order = list.order();
    assert(list.chains(order));
    assert(order.contains(item));
    let j = order.index_of(item);
    lemma_splice(list.nodes, list.meta, order, j);
    list.without(item).lemma_order(order.remove(j));
    lemma_scan_for_move(list, item, priority);
    lemma_place_needs_no_repair(list.without(item), order.remove(j), priority);
}

/// The right place is a hint that needs no repair.
proof fn lemma_place_needs_no_repair(list: Rows, order: Seq<ItemId>, priority: Priority)
    requires
        list.chains(order),
    ensures
        list.repair_steps(priority, list.place(priority)) == 0,
{
    list.lemma_order(order);
    let gap = list.rank(priority);
    lemma_rank(list.nodes, order, priority);
    let hint = gap_position(order, gap);
    if gap > 0 {
        assert(order.contains(order[gap - 1]));
        assert(order.index_of(order[gap - 1]) == gap - 1);
    } else if order.len() > 0 {
        assert(order.contains(order[0]));
        assert(order.index_of(order[0]) == 0);
    }
    assert(anchor(order, hint) == gap);
}

impl SortedList {
    /// The item of the highest priority.
    pub fn head(&self) -> (head: Option<ItemId>)
        ensures
            head == self.rows().head(),
    {
        match self.meta {
            Some(meta) => meta.head,
            None => None,
        }
    }

    /// The item of the lowest priority.
    pub fn tail(&self) -> (tail: Option<ItemId>)
        ensures
            tail == self.rows().tail(),
    {
        match self.meta {
            Some(meta) => meta.tail,
            None => None,
        }
    }

    /// The number of items.
    pub fn count(&self) -> (count: u32)
        ensures
            count == self.rows().count(),
    {
        match self.meta {
            Some(meta) => meta.len,
            None => 0,
        }
    }

    /// Whether the item is in the list.
    pub fn contains(&self, item: ItemId) -> (contained: bool)
        ensures
            contained == self.rows().nodes.contains_key(item),
    {
        self.nodes.contains_key(item)
    }

    /// An item's priority and neighbours.
    pub fn node(&self, item: ItemId) -> (node: Option<(Priority, Position)>)
        ensures
            node == self.rows().node(item),
    {
        match self.nodes.get(item) {
            Some(row) => Some((row.priority, row.into_position())),
            None => None,
        }
    }

    /// The first `n` items from the tail on, or all where there are fewer.
    pub fn iter_from_tail(&self, n: u32) -> (items: Vec<ItemId>)
        ensures
            items@ == self.rows().from_tail(n),
    {
        let mut items: Vec<ItemId> = Vec::new();
        let len = self.count();
        let limit: u32 = if n < len {
            n
        } else {
            len
        };
        let mut cursor = self.tail();
        let mut left: u32 = limit;
        let ghost all = self.rows().from_tail(n);
        while left > 0 && cursor.is_some()
            invariant
                all == items@ + trail(self.nodes@, cursor, left as nat),
            decreases left,
        {
            if let Some(item) = cursor {
                items.push(item);
                cursor =
                match self.nodes.get(item) {
                    Some(row) => row.prev,
                    None => None,
                };
                left = left - 1;
                assert(all =~= items@ + trail(self.nodes@, cursor, left as nat));
            }
        }
        assert(items@ =~= all);
        items
    }

    /// The place of `priority`, passing over `skip`. The scan visits one item more than the list
    /// counts at most, so that it ends on rows in a circle too.
    fn find_position_skipping(&self, priority: Priority, skip: Option<ItemId>) -> (position: Position)
        ensures
            position == self.rows().scan(priority, skip),
    {
        let len = self.count();
        let mut prev: Option<ItemId> = None;
        let mut cursor = self.head();
        let mut visited: u64 = 0;
        while visited <= u64::from(len)
            invariant
                len == self.rows().count(),
                visited <= len + 1,
                self.rows().scan(priority, skip) == scanned(
                    self.nodes@,
                    priority,
                    skip,
                    prev,
                    cursor,
                    (len + 1 - visited) as nat,
                ),
            decreases len + 1 - visited,
        {
            let item = match cursor {
                Some(item) => item,
                None => {
                    return Position { prev, next: None };
                },
            };
            let row = match self.nodes.get(item) {
                Some(row) => row,
                None => {
                    return Position { prev, next: None };
                },
            };
            visited = visited + 1;
            if skip != Some(item) {
                if priority > row.priority {
                    return Position { prev, next: Some(item) };
                }
                prev = Some(item);
            }
            cursor = row.next;
        }
        Position { prev, next: None }
    }

    /// The place where an item of `priority` belongs. Takes time in the list's length.
    pub fn find_position(&self, priority: Priority) -> (position: Position)
        ensures
            position == self.rows().scan(priority, None),
            self.rows().consistent() ==> position == self.rows().place(priority),
    {
        proof {
            if self.rows().consistent() {
                law_found_place_needs_no_repair(self.rows(), priority);
            }
        }
        self.find_position_skipping(priority, None)
    }

    /// The place where an item of the list belongs at `priority`, among the other items. Takes time
    /// in the list's length.
    pub fn find_re_insert_position(&self, item: ItemId, priority: Priority) -> (position: Option<
        Position,
    >)
        ensures
            position == (if self.rows().nodes.contains_key(item) {
                Some(self.rows().scan(priority, Some(item)))
            } else {
                None
            }),
            self.rows().consistent() && position is Some ==> position == Some(
                self.rows().without(item).place(priority),
            ),
    {
        if !self.nodes.contains_key(item) {
            return None;
        }
        proof {
            if self.rows().consistent() {
                lemma_scan_for_move(self.rows(), item, priority);
            }
        }
        Some(self.find_position_skipping(priority, Some(item)))
    }

    /// Steps that inserting a new item of `priority` would take to repair `hint`, or one more than
    /// the budget where it would fail.
    pub fn repair_steps_needed(&self, priority: Priority, hint: Position, budget: u32) -> (steps: u32)
        ensures
            self.rows().tells_insert(priority, hint, budget, steps),
    {
        match self.walk_repair(priority, hint, budget) {
            Ok((_, steps)) => steps,
            Err(_) => budget.saturating_add(1),
        }
    }

    /// Steps that moving an item to `priority` would take to repair `hint`: none where the hint would
    /// not be used, and one more than the budget where the move would fail. The move is tried on a
    /// copy of the list.
    pub fn re_insert_steps_needed(
        &self,
        item: ItemId,
        priority: Priority,
        hint: Position,
        budget: u32,
    ) -> (steps: u32)
        ensures
            self.rows().tells_move(item, priority, hint, budget, steps),
    {
        let mut copy = SortedList { nodes: self.nodes.duplicate(), meta: self.meta };
        assert(copy.rows() == self.rows());
        match copy.re_insert(item, priority, hint, budget) {
            Ok(Outcome::NoOp) => 0,
            Ok(Outcome::InPlace) => 0,
            Ok(Outcome::Relocated { steps }) => steps,
            Err(_) => budget.saturating_add(1),
        }
    }
}

} // verus!
