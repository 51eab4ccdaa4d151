use pusd::linked_list::interface::{fifo_append, PriorityProvider, SortedListInterface};
use pusd::linked_list::list::SortedList;
use pusd::linked_list::pallet::{Event, Pallet, ReprioritizeError, ReprioritizeWeight};
use pusd::linked_list::try_state::Violation;
use pusd::linked_list::types::{
    ItemId, ListError, ListId, ListMeta, Node, Outcome, Position, Priority,
};
use pusd::primitives::origin::RawOrigin;
use std::collections::BTreeMap;

const BUDGET: u32 = 4;

/// Priorities pinned per item.
struct StaticPriorities {
    priorities: BTreeMap<(ListId, ItemId), Priority>,
}

impl PriorityProvider for StaticPriorities {
    fn priority(&self, list_id: ListId, item: ItemId) -> Option<Priority> {
        self.priorities.get(&(list_id, item)).copied()
    }
}

struct Lists {
    pallet: Pallet,
    provider: StaticPriorities,
}

impl Lists {
    fn new() -> Lists {
        Lists {
            pallet: Pallet::new(BUDGET),
            provider: StaticPriorities { priorities: BTreeMap::new() },
        }
    }

    fn insert(&mut self, list_id: ListId, item: ItemId, priority: Priority) {
        let hint = self.pallet.find_position(list_id, priority);
        assert_eq!(self.pallet.insert(list_id, item, priority, hint), Ok(0));
    }

    fn set_real_priority(&mut self, list_id: ListId, item: ItemId, priority: Priority) {
        self.provider.priorities.insert((list_id, item), priority);
    }

    fn reprioritize(
        &mut self,
        list_id: ListId,
        item: ItemId,
        hint: Position,
    ) -> Result<ReprioritizeWeight, ReprioritizeError> {
        self.pallet.reprioritize(RawOrigin::Signed(1u64), &self.provider, list_id, item, hint)
    }

    fn node(&self, list_id: ListId, item: ItemId) -> Option<Node> {
        self.pallet.lists.peek(list_id).and_then(|list| list.nodes.get(item))
    }

    fn meta(&self, list_id: ListId) -> Option<ListMeta> {
        self.pallet.lists.peek(list_id).and_then(|list| list.meta)
    }

    fn rows(&self, list_id: ListId) -> (Vec<(ItemId, Node)>, Option<ListMeta>) {
        let keys = match self.pallet.lists.peek(list_id) {
            Some(list) => list.nodes.keys(),
            None => Vec::new(),
        };
        let nodes = keys.iter().map(|&k| (k, self.node(list_id, k).unwrap())).collect();
        (nodes, self.meta(list_id))
    }

    fn mutate(&mut self, list_id: ListId, change: impl Fn(&mut SortedList)) {
        let mut list = self.pallet.lists.take(list_id).expect("the list has rows");
        change(&mut list);
        self.pallet.lists.insert(list_id, list);
    }

    fn mutate_node(&mut self, list_id: ListId, item: ItemId, change: impl Fn(&mut Node)) {
        self.mutate(list_id, |list| {
            let mut node = list.nodes.get(item).expect("the item has a row");
            change(&mut node);
            list.nodes.insert(item, node);
        });
    }

    /// Items and priorities, head first. Checks the rows.
    fn dump(&self, list_id: ListId) -> Vec<(ItemId, Priority)> {
        assert_eq!(self.pallet.do_try_state(), Ok(()));
        let mut items = Vec::new();
        let mut cursor = self.pallet.head(list_id);
        while let Some(item) = cursor {
            let (priority, position) = self.pallet.node(list_id, item).unwrap();
            items.push((item, priority));
            cursor = position.next;
        }
        items
    }
}

#[test]
fn reprioritize_no_op_when_priority_unchanged() {
    let mut lists = Lists::new();
    lists.insert(1, 100, 50);
    lists.set_real_priority(1, 100, 50);
    assert_eq!(
        lists.reprioritize(1, 100, Position::endpoints_only()),
        Ok(ReprioritizeWeight::NoOp)
    );
    assert_eq!(lists.dump(1), vec![(100, 50)]);
}

#[test]
fn reprioritize_repositions_when_priority_changes() {
    let mut lists = Lists::new();
    lists.insert(1, 1, 90);
    lists.insert(1, 2, 50);
    lists.insert(1, 3, 10);
    // Real priority for item 2 just rose to 99; reprioritize should move it to head.
    lists.set_real_priority(1, 2, 99);
    // Hint: target's new neighbors (None, Some(1)): head insertion.
    assert_eq!(
        lists.reprioritize(1, 2, Position::at_head(1)),
        Ok(ReprioritizeWeight::Relocate { steps: 0 })
    );
    assert_eq!(lists.dump(1), vec![(2, 99), (1, 90), (3, 10)]);
    // `ItemReinserted` is the single event surface for priority changes,
    // whether they arrive via the trait or via the call.
    assert!(lists.pallet.events.contains(&Event::ItemReinserted {
        list_id: 1,
        item: 2,
        old_priority: 50,
        new_priority: 99
    }));
}

#[test]
fn reprioritize_unknown_item_errors() {
    let mut lists = Lists::new();
    // No priority is pinned, so the provider returns `None`.
    assert!(matches!(
        lists.reprioritize(1, 100, Position::endpoints_only()),
        Err(ReprioritizeError::List { error: ListError::ItemNotFound, .. })
    ));
    assert_eq!(lists.rows(1), (vec![], None));
    assert!(lists.pallet.events.is_empty());
}

/// The early item-not-found exit refunds down to the cheapest path instead of charging the full
/// relocate-budget reservation.
#[test]
fn reprioritize_unknown_item_refunds_weight() {
    let mut lists = Lists::new();
    assert_eq!(
        lists.reprioritize(1, 100, Position::endpoints_only()),
        Err(ReprioritizeError::List {
            error: ListError::ItemNotFound,
            actual_weight: Some(ReprioritizeWeight::NoOp)
        })
    );
}

#[test]
fn reprioritize_removes_existing_item_when_priority_disappears() {
    let mut lists = Lists::new();
    lists.insert(1, 1, 90);
    lists.insert(1, 2, 50);
    lists.insert(1, 3, 10);

    assert_eq!(
        lists.reprioritize(1, 2, Position::endpoints_only()),
        Ok(ReprioritizeWeight::PriorityRemoved)
    );

    assert_eq!(lists.dump(1), vec![(1, 90), (3, 10)]);
    assert!(lists
        .pallet
        .events
        .contains(&Event::ItemRemoved { list_id: 1, item: 2, priority: 50 }));
}

#[test]
fn reprioritize_with_stale_hint_within_budget_succeeds() {
    let mut lists = Lists::new();
    lists.insert(1, 1, 90);
    lists.insert(1, 2, 50);
    lists.insert(1, 3, 10);
    // Real priority for item 2 just rose to 99; the caller's hint is stale
    // (tail region) but the correct head position is within budget.
    lists.set_real_priority(1, 2, 99);
    assert!(lists.reprioritize(1, 2, Position::at_tail(3)).is_ok());
    assert_eq!(lists.dump(1), vec![(2, 99), (1, 90), (3, 10)]);
}

/// `re_insert_steps_needed` simulates the call exactly: the item is spliced out before the walk, so
/// a hint adjacent to the item's own old position degrades. The insert-oriented
/// `repair_steps_needed` green-lights this hint (3 steps with the item still linked), but the call
/// fails.
#[test]
fn re_insert_steps_needed_predicts_dispatch_failure() {
    let mut lists = Lists::new();
    // Budget = 4. Chain 1(100)..6(50); item 2 drifts to 55, whose
    // correct post-splice position is between 5 and 6.
    for (i, p) in [(1, 100), (2, 90), (3, 80), (4, 70), (5, 60), (6, 50)] {
        lists.insert(1, i, p);
    }
    let hint = Position::between(2, 3);

    // The insert-oriented view walks with item 2 still linked: 3 steps.
    assert_eq!(lists.pallet.repair_steps_needed(1, 55, hint), 3);
    // The faithful view sees the post-splice walk exceed the budget.
    assert!(lists.pallet.re_insert_steps_needed(1, 2, 55, hint) > BUDGET);
    // And the call agrees with it, not with `repair_steps_needed`.
    lists.set_real_priority(1, 2, 55);
    let before = lists.rows(1);
    assert_eq!(
        lists.reprioritize(1, 2, hint),
        Err(ReprioritizeError::List {
            error: ListError::InvalidPositionHints,
            actual_weight: None
        })
    );
    assert_eq!(lists.rows(1), before);
}

/// The fast paths never consult the hint, so even a garbage hint must yield
/// `0` from the faithful view — and the call must succeed.
#[test]
fn re_insert_steps_needed_zero_for_in_place_despite_garbage_hint() {
    let mut lists = Lists::new();
    lists.insert(1, 1, 100);
    lists.insert(1, 2, 90);
    lists.insert(1, 3, 80);
    // 85 still fits between 1 (100) and 3 (80): in-place fast path.
    let garbage_hint = Position::between(98, 99);
    assert_eq!(lists.pallet.re_insert_steps_needed(1, 2, 85, garbage_hint), 0);
    lists.set_real_priority(1, 2, 85);
    assert_eq!(lists.reprioritize(1, 2, garbage_hint), Ok(ReprioritizeWeight::InPlace));
    assert_eq!(lists.dump(1), vec![(1, 100), (2, 85), (3, 80)]);
}

/// The dry run inside `re_insert_steps_needed` must not leave any trace in storage.
#[test]
fn re_insert_steps_needed_is_read_only() {
    let mut lists = Lists::new();
    lists.insert(1, 1, 100);
    lists.insert(1, 2, 90);
    lists.insert(1, 3, 80);
    let before = lists.rows(1);
    let events = lists.pallet.events.len();
    let _ = lists.pallet.re_insert_steps_needed(1, 2, 5, Position::at_head(1));
    assert_eq!(lists.rows(1), before);
    assert_eq!(lists.pallet.events.len(), events);
}

#[test]
fn reprioritize_with_hint_beyond_budget_errors() {
    let mut lists = Lists::new();
    // Build a chain longer than the budget so that a wrong-end
    // hint cannot reach the correct position.
    let chain_len = BUDGET + 4;
    for i in 1..=chain_len {
        lists.insert(1, u64::from(i), u128::from(100u32 - 10 * i + 10));
    }
    // Tail item drifts up to 200; correct position is the head, but the
    // supplied hint is at the tail and the budget cannot bridge that gap.
    let tail = u64::from(chain_len);
    lists.set_real_priority(1, tail, 200);
    let before = lists.rows(1);
    assert!(matches!(
        lists.reprioritize(1, tail, Position::at_tail(tail - 1)),
        Err(ReprioritizeError::List { error: ListError::InvalidPositionHints, .. })
    ));
    assert_eq!(lists.rows(1), before);
}

#[test]
fn reprioritize_takes_a_signed_origin() {
    let mut lists = Lists::new();
    lists.insert(1, 1, 90);
    for origin in [RawOrigin::<u64>::Root, RawOrigin::Unsigned] {
        assert_eq!(
            lists.pallet.reprioritize(origin, &lists.provider, 1, 1, Position::endpoints_only()),
            Err(ReprioritizeError::BadOrigin)
        );
    }
    assert_eq!(lists.dump(1), vec![(1, 90)]);
}

#[test]
fn re_insert_unchanged_priority_no_op() {
    let mut lists = Lists::new();
    lists.insert(1, 100, 50);
    assert_eq!(
        lists.pallet.re_insert(1, 100, 50, Position::endpoints_only()),
        Ok(Outcome::NoOp)
    );
    assert_eq!(lists.dump(1), vec![(100, 50)]);
}

#[test]
fn re_insert_emits_no_lifecycle_events() {
    let mut lists = Lists::new();
    lists.insert(1, 10, 90);
    lists.insert(1, 20, 50);
    lists.insert(1, 30, 10);
    lists.pallet.events.clear();
    // Relocate the tail (30) above the head — forces the splice + re-insert path.
    assert_eq!(
        lists.pallet.re_insert(1, 30, 100, Position::at_head(10)),
        Ok(Outcome::Relocated { steps: 0 })
    );
    // The item stays in the list: only `ItemReinserted`, never `ListCreated`/`ListRemoved`.
    assert_eq!(
        lists.pallet.events,
        vec![Event::ItemReinserted { list_id: 1, item: 30, old_priority: 10, new_priority: 100 }]
    );
}

#[test]
fn re_insert_in_place_when_position_still_valid() {
    let mut lists = Lists::new();
    lists.insert(1, 100, 90);
    lists.insert(1, 200, 50);
    lists.insert(1, 300, 10);
    // Drop 200 from 50 → 30: still strictly less than 100 (90) and strictly
    // greater than 300 (10). Position-validity check passes; in-place update.
    assert_eq!(
        lists.pallet.re_insert(1, 200, 30, Position::endpoints_only()),
        Ok(Outcome::InPlace)
    );
    assert_eq!(lists.dump(1), vec![(100, 90), (200, 30), (300, 10)]);
    assert!(lists.pallet.events.contains(&Event::ItemReinserted {
        list_id: 1,
        item: 200,
        old_priority: 50,
        new_priority: 30
    }));
}

#[test]
fn re_insert_priority_increase_moves_toward_head() {
    let mut lists = Lists::new();
    lists.insert(1, 1, 90);
    lists.insert(1, 2, 50);
    lists.insert(1, 3, 10);
    let hint = lists.pallet.find_re_insert_position(1, 3, 95).unwrap();
    assert_eq!(lists.pallet.re_insert(1, 3, 95, hint), Ok(Outcome::Relocated { steps: 0 }));
    assert_eq!(lists.dump(1), vec![(3, 95), (1, 90), (2, 50)]);
}

#[test]
fn re_insert_priority_decrease_moves_toward_tail() {
    let mut lists = Lists::new();
    lists.insert(1, 1, 90);
    lists.insert(1, 2, 50);
    lists.insert(1, 3, 10);
    let hint = lists.pallet.find_re_insert_position(1, 1, 5).unwrap();
    assert!(lists.pallet.re_insert(1, 1, 5, hint).is_ok());
    assert_eq!(lists.dump(1), vec![(2, 50), (3, 10), (1, 5)]);
}

#[test]
fn re_insert_unknown_errors() {
    let mut lists = Lists::new();
    assert_eq!(
        lists.pallet.re_insert(1, 100, 50, Position::endpoints_only()),
        Err(ListError::ItemNotFound)
    );
    assert_eq!(lists.rows(1), (vec![], None));
    assert!(lists.pallet.events.is_empty());
}

/// Slow-path atomicity: when the repair walk exceeds the budget, the prior splice must be undone so
/// that the item is still present after the failed `re_insert`.
#[test]
fn re_insert_slow_path_failure_leaves_storage_untouched() {
    let mut lists = Lists::new();
    // Build a chain longer than the budget.
    let chain_len = BUDGET + 4;
    for i in 1..=chain_len {
        lists.insert(1, u64::from(i), u128::from(100 - 10 * i + 10));
    }
    // Re-insert item 1 at priority 5 (tail-ward) but supply head hints; the
    // repair walk distance exceeds budget, so re_insert errors. The item
    // must still be in the list at its old position.
    let before = lists.rows(1);
    let events = lists.pallet.events.len();
    assert_eq!(
        lists.pallet.re_insert(1, 1, 5, Position::at_head(1)),
        Err(ListError::InvalidPositionHints)
    );
    assert_eq!(lists.rows(1), before);
    assert_eq!(lists.pallet.events.len(), events);
}

/// The same-priority fast path deliberately skips link validation: the exact corruption the
/// mutating paths reject below goes unnoticed, nothing is written, and no event is deposited.
#[test]
fn re_insert_no_op_skips_link_validation() {
    let mut lists = Lists::new();
    lists.insert(1, 100, 90);
    lists.insert(1, 200, 50);
    lists.insert(1, 300, 10);
    // 100's forward link skips 200.
    lists.mutate_node(1, 100, |node| node.next = Some(300));
    lists.pallet.events.clear();
    let before = lists.rows(1);
    assert_eq!(
        lists.pallet.re_insert(1, 200, 50, Position::endpoints_only()),
        Ok(Outcome::NoOp)
    );
    assert_eq!(lists.rows(1), before);
    assert!(lists.pallet.events.is_empty());
}

/// A list of 100 (90), 200 (50) and 300 (10), with one row changed.
fn corrupted(item: ItemId, change: impl Fn(&mut Node)) -> Lists {
    let mut lists = Lists::new();
    lists.insert(1, 100, 90);
    lists.insert(1, 200, 50);
    lists.insert(1, 300, 10);
    lists.mutate_node(1, item, change);
    lists
}

/// Corruption keeps a changed priority from being written, even where the cached neighbour
/// priorities admit the new value.
#[test]
fn re_insert_reports_corrupt_links_and_writes_nothing() {
    let refused = |mut lists: Lists, item: ItemId, priority: Priority| {
        let before = lists.rows(1);
        assert_eq!(
            lists.pallet.re_insert(1, item, priority, Position::endpoints_only()),
            Err(ListError::CorruptList)
        );
        assert_eq!(lists.rows(1), before);
        assert!(lists.pallet.do_try_state().is_err());
    };
    // 100's forward link skips 200.
    refused(corrupted(100, |node| node.next = Some(300)), 200, 60);
    // 300's backward link skips 200.
    refused(corrupted(300, |node| node.prev = Some(100)), 200, 60);
    // 100's `prev` names itself, forming a self-loop.
    refused(corrupted(100, |node| node.prev = Some(100)), 100, 95);
    // 200 claims 100 on both sides.
    refused(corrupted(200, |node| node.next = Some(100)), 200, 60);
    // 200's `prev` names an item with no stored row.
    refused(corrupted(200, |node| node.prev = Some(999)), 200, 60);
    // 100's `next` names an item with no stored row.
    refused(corrupted(100, |node| node.next = Some(999)), 100, 95);
    // 200 falsely claims to be the head; the list's row still names 100.
    refused(corrupted(200, |node| node.prev = None), 200, 60);
    // 100 falsely claims to be the tail; the list's row still names 300.
    refused(corrupted(100, |node| node.next = None), 100, 95);
}

/// What is told of a move holds of it on rows that are no list too: it fails, or takes the steps.
#[test]
fn told_steps_predict_a_move_on_corrupt_rows() {
    let predicted = |mut lists: Lists, item: ItemId, priority: Priority, hint: Position| {
        let steps = lists.pallet.re_insert_steps_needed(1, item, priority, hint);
        match lists.pallet.re_insert(1, item, priority, hint) {
            Ok(Outcome::Relocated { steps: taken }) => assert_eq!(taken, steps),
            Ok(_) => assert_eq!(steps, 0),
            Err(_) => assert!(steps > BUDGET),
        }
        steps
    };
    // The walk meets a link to an item without a row.
    let broken = || corrupted(100, |node| node.next = Some(999));
    assert_eq!(predicted(broken(), 300, 60, Position::at_head(100)), BUDGET + 1);
    // The item's own links agree, and the walk ends before it meets the broken one.
    let far = || corrupted(100, |node| node.prev = Some(999));
    assert_eq!(predicted(far(), 300, 70, Position::between(100, 200)), 0);
    assert_eq!(predicted(far(), 300, 70, Position::at_tail(200)), 1);
    let mut lists = far();
    assert_eq!(
        lists.pallet.re_insert(1, 300, 70, Position::between(100, 200)),
        Ok(Outcome::Relocated { steps: 0 })
    );
    assert_eq!(lists.pallet.neighbors(1, 300), Some(Position::between(100, 200)));
    assert_eq!(lists.pallet.tail(1), Some(200));
    assert_eq!(lists.pallet.repair_budget(), BUDGET);
}

#[test]
fn insert_orders_by_priority_and_deposits_events() {
    let mut lists = Lists::new();
    assert_eq!(lists.pallet.insert(7, 1, 50, Position::endpoints_only()), Ok(0));
    assert_eq!(lists.pallet.insert(7, 2, 90, Position::at_head(1)), Ok(0));
    assert_eq!(lists.pallet.insert(7, 3, 70, Position::between(2, 1)), Ok(0));
    assert_eq!(lists.dump(7), vec![(2, 90), (3, 70), (1, 50)]);
    assert_eq!(
        lists.pallet.events,
        vec![
            Event::ListCreated { list_id: 7 },
            Event::ItemInserted { list_id: 7, item: 1, priority: 50 },
            Event::ItemInserted { list_id: 7, item: 2, priority: 90 },
            Event::ItemInserted { list_id: 7, item: 3, priority: 70 },
        ]
    );
    assert_eq!(lists.pallet.head(7), Some(2));
    assert_eq!(lists.pallet.tail(7), Some(1));
    assert_eq!(lists.pallet.count(7), 3);
    assert!(lists.pallet.contains(7, 3));
    assert!(!lists.pallet.contains(8, 3));
    assert_eq!(lists.pallet.neighbors(7, 3), Some(Position::between(2, 1)));
    assert_eq!(lists.pallet.priority(7, 3), Some(70));
    assert_eq!(lists.pallet.priority(7, 4), None);
    assert_eq!(lists.pallet.repair_budget(), BUDGET);
}

#[test]
fn insert_refuses_an_item_twice() {
    let mut lists = Lists::new();
    lists.insert(1, 1, 50);
    assert_eq!(
        lists.pallet.insert(1, 1, 60, Position::at_head(1)),
        Err(ListError::ItemAlreadyExists)
    );
    // The same item may stand in another list.
    lists.insert(2, 1, 60);
    assert_eq!(lists.dump(1), vec![(1, 50)]);
    assert_eq!(lists.dump(2), vec![(1, 60)]);
}

#[test]
fn insert_repairs_stale_hints_within_the_budget() {
    let mut lists = Lists::new();
    for (i, p) in [(1, 100), (2, 90), (3, 80), (4, 70), (5, 60), (6, 50)] {
        lists.insert(1, i, p);
    }
    // An exact but wrong gap: three nodes are crossed.
    assert_eq!(lists.pallet.repair_steps_needed(1, 65, Position::between(1, 2)), 3);
    // A hint whose head-side neighbour is gone starts at the head, one step later.
    assert_eq!(lists.pallet.repair_steps_needed(1, 85, Position::between(99, 3)), 3);
    // Beyond the budget the sentinel is one above it, and the insertion fails.
    assert_eq!(lists.pallet.repair_steps_needed(1, 5, Position::at_head(1)), BUDGET + 1);
    assert_eq!(
        lists.pallet.insert(1, 7, 5, Position::at_head(1)),
        Err(ListError::InvalidPositionHints)
    );
    assert_eq!(lists.pallet.insert(1, 7, 65, Position::between(1, 2)), Ok(3));
    assert_eq!(
        lists.dump(1),
        vec![(1, 100), (2, 90), (3, 80), (4, 70), (7, 65), (5, 60), (6, 50)]
    );
}

#[test]
fn a_zero_budget_takes_the_right_place_only() {
    let mut pallet = Pallet::new(0);
    assert_eq!(pallet.insert(1, 1, 50, Position::endpoints_only()), Ok(0));
    assert_eq!(
        pallet.insert(1, 2, 40, Position::at_head(1)),
        Err(ListError::InvalidPositionHints)
    );
    assert_eq!(
        pallet.insert(1, 2, 40, Position::endpoints_only()),
        Err(ListError::InvalidPositionHints)
    );
    assert_eq!(pallet.insert(1, 2, 40, Position::at_tail(1)), Ok(0));
}

#[test]
fn a_full_list_takes_no_item() {
    let mut lists = Lists::new();
    lists.insert(1, 1, 50);
    lists.mutate(1, |list| {
        list.meta = Some(ListMeta { head: Some(1), tail: Some(1), len: u32::MAX })
    });
    assert_eq!(
        lists.pallet.insert(1, 2, 40, Position::at_tail(1)),
        Err(ListError::ListTooLong)
    );
}

#[test]
fn insert_reports_a_broken_chain() {
    let mut lists = corrupted(100, |node| node.next = Some(999));
    let before = lists.rows(1);
    assert_eq!(
        lists.pallet.insert(1, 4, 40, Position::at_head(100)),
        Err(ListError::CorruptList)
    );
    assert_eq!(lists.rows(1), before);
}

/// Removing what was just inserted leaves the list as it was.
#[test]
fn removal_undoes_insertion() {
    let mut lists = Lists::new();
    lists.insert(1, 1, 90);
    lists.insert(1, 2, 50);
    for priority in [99, 90, 70, 50, 10] {
        let before = lists.rows(1);
        lists.insert(1, 3, priority);
        assert_eq!(lists.pallet.remove(1, 3), Ok(()));
        assert_eq!(lists.rows(1), before);
    }
}

#[test]
fn removing_the_last_item_removes_the_list() {
    let mut lists = Lists::new();
    lists.insert(1, 1, 90);
    lists.pallet.events.clear();
    assert_eq!(lists.pallet.remove(1, 2), Err(ListError::ItemNotFound));
    assert_eq!(lists.pallet.remove(1, 1), Ok(()));
    assert_eq!(
        lists.pallet.events,
        vec![
            Event::ItemRemoved { list_id: 1, item: 1, priority: 90 },
            Event::ListRemoved { list_id: 1 },
        ]
    );
    assert_eq!(lists.rows(1), (vec![], None));
    assert_eq!(lists.pallet.count(1), 0);
}

#[test]
fn remove_reports_a_miscounted_list() {
    let mut lists = Lists::new();
    lists.insert(1, 1, 90);
    lists.insert(1, 2, 50);
    lists.mutate(1, |list| list.meta = Some(ListMeta { head: Some(1), tail: Some(2), len: 1 }));
    assert_eq!(lists.pallet.remove(1, 2), Err(ListError::CorruptList));
}

/// Items of one priority leave the tail last in, first out.
#[test]
fn equal_priorities_leave_last_in_first_out() {
    let mut lists = Lists::new();
    for item in [1, 2, 3] {
        lists.insert(1, item, 50);
    }
    assert_eq!(lists.dump(1), vec![(1, 50), (2, 50), (3, 50)]);
    assert_eq!(lists.pallet.iter_from_tail(1, 2), vec![3, 2]);
    assert_eq!(lists.pallet.iter_from_tail(1, 9), vec![3, 2, 1]);
    assert_eq!(lists.pallet.iter_from_tail(1, 0), Vec::<u64>::new());
    assert_eq!(lists.pallet.pop_tail(1), Ok(Some((3, 50))));
    assert_eq!(lists.pallet.pop_tail(1), Ok(Some((2, 50))));
    assert_eq!(lists.pallet.pop_tail(1), Ok(Some((1, 50))));
    assert_eq!(lists.pallet.pop_tail(1), Ok(None));
}

#[test]
fn pop_tail_reports_a_missing_tail() {
    let mut lists = Lists::new();
    lists.insert(1, 1, 90);
    lists.mutate(1, |list| list.meta = Some(ListMeta { head: Some(1), tail: None, len: 1 }));
    assert_eq!(lists.pallet.pop_tail(1), Err(ListError::CorruptList));
    lists.mutate(1, |list| list.meta = Some(ListMeta { head: Some(1), tail: Some(9), len: 1 }));
    assert_eq!(lists.pallet.pop_tail(1), Err(ListError::CorruptList));
}

#[test]
fn places_are_found_behind_equal_priorities() {
    let mut lists = Lists::new();
    lists.insert(1, 1, 90);
    lists.insert(1, 2, 50);
    lists.insert(1, 3, 50);
    lists.insert(1, 4, 10);
    assert_eq!(lists.pallet.find_position(1, 50), Position::between(3, 4));
    assert_eq!(lists.pallet.find_position(1, 91), Position::at_head(1));
    assert_eq!(lists.pallet.find_position(1, 1), Position::at_tail(4));
    assert_eq!(lists.pallet.find_position(2, 1), Position::endpoints_only());
    assert_eq!(
        lists.pallet.find_re_insert_position(1, 3, 95),
        Some(Position::at_head(1))
    );
    assert_eq!(
        lists.pallet.find_re_insert_position(1, 3, 20),
        Some(Position::between(2, 4))
    );
    assert_eq!(lists.pallet.find_re_insert_position(1, 9, 20), None);
    // Rows in a circle end the scan.
    lists.mutate_node(1, 4, |node| node.next = Some(1));
    assert_eq!(lists.pallet.find_position(1, 0), Position::at_tail(1));
}

/// A list kept first in, first out: each join goes before the head, the tail is the oldest, and the
/// priorities differ across joins and leaves.
#[test]
fn fifo_appends_keep_the_oldest_at_the_tail() {
    let mut lists = Lists::new();
    for item in [11, 12, 13] {
        assert_eq!(fifo_append(&mut lists.pallet, 1, item), Ok(()));
    }
    assert_eq!(lists.dump(1), vec![(13, 2), (12, 1), (11, 0)]);
    assert_eq!(lists.pallet.remove(1, 12), Ok(()));
    assert_eq!(fifo_append(&mut lists.pallet, 1, 12), Ok(()));
    assert_eq!(lists.dump(1), vec![(12, 3), (13, 2), (11, 0)]);
    assert_eq!(fifo_append(&mut lists.pallet, 1, 13), Err(ListError::ItemAlreadyExists));
    for item in [11, 13, 12] {
        assert_eq!(lists.pallet.tail(1), Some(item));
        assert!(lists.pallet.remove(1, item).is_ok());
    }
    // The sequence starts again once the list emptied.
    assert_eq!(fifo_append(&mut lists.pallet, 1, 14), Ok(()));
    assert_eq!(lists.dump(1), vec![(14, 0)]);
    // A head without a higher priority, or without a row, is corruption.
    lists.mutate_node(1, 14, |node| node.priority = u128::MAX);
    assert_eq!(fifo_append(&mut lists.pallet, 1, 15), Err(ListError::CorruptList));
    lists.mutate(1, |list| list.meta = Some(ListMeta { head: Some(9), tail: Some(14), len: 1 }));
    assert_eq!(fifo_append(&mut lists.pallet, 1, 15), Err(ListError::CorruptList));
}

/// Each contradiction between rows is told by its name.
#[test]
fn contradictory_rows_are_named() {
    let told = |lists: Lists| lists.pallet.do_try_state().unwrap_err();
    let with_meta = |meta: Option<ListMeta>| {
        let mut lists = corrupted(100, |_| {});
        lists.mutate(1, |list| list.meta = meta);
        lists
    };
    let meta = |head, tail, len| Some(ListMeta { head, tail, len });
    assert_eq!(told(with_meta(None)), Violation::NodesWithoutMeta);
    assert_eq!(told(with_meta(meta(None, Some(300), 3))), Violation::HeadIsNone);
    assert_eq!(told(with_meta(meta(Some(100), None, 3))), Violation::TailIsNone);
    assert_eq!(told(with_meta(meta(Some(100), Some(300), 0))), Violation::LenIsZero);
    assert_eq!(told(with_meta(meta(Some(1), Some(300), 3))), Violation::HeadMissing);
    assert_eq!(told(with_meta(meta(Some(100), Some(1), 3))), Violation::TailMissing);
    assert_eq!(told(with_meta(meta(Some(200), Some(300), 3))), Violation::HeadHasPrev);
    assert_eq!(told(with_meta(meta(Some(100), Some(200), 3))), Violation::TailHasNext);
    assert_eq!(told(with_meta(meta(Some(100), Some(300), 1))), Violation::ForwardExceeded);
    assert_eq!(told(with_meta(meta(Some(100), Some(300), 2))), Violation::ForwardCount);
    assert_eq!(told(with_meta(meta(Some(100), Some(300), 4))), Violation::ForwardCount);

    assert_eq!(told(corrupted(100, |node| node.next = Some(9))), Violation::ForwardMissing);
    assert_eq!(told(corrupted(200, |node| node.prev = Some(300))), Violation::ForwardPrev);
    assert_eq!(told(corrupted(200, |node| node.priority = 91)), Violation::PrioritiesIncrease);

    let mut lists = corrupted(100, |_| {});
    lists.mutate(1, |list| {
        list.nodes.insert(400, Node { priority: 0, prev: None, next: None });
        list.meta = Some(ListMeta { head: Some(100), tail: Some(400), len: 3 });
    });
    assert_eq!(told(lists), Violation::ReverseCount);
    let mut lists = corrupted(100, |_| {});
    lists.mutate(1, |list| {
        list.nodes.insert(400, Node { priority: 0, prev: Some(9), next: None });
        list.meta = Some(ListMeta { head: Some(100), tail: Some(400), len: 3 });
    });
    assert_eq!(told(lists), Violation::ReverseMissing);
    let mut lists = corrupted(100, |_| {});
    lists.mutate(1, |list| {
        list.nodes.insert(400, Node { priority: 0, prev: Some(400), next: None });
        list.meta = Some(ListMeta { head: Some(100), tail: Some(400), len: 3 });
    });
    assert_eq!(told(lists), Violation::ReverseExceeded);
    let mut lists = corrupted(100, |_| {});
    lists.mutate(1, |list| {
        list.nodes.insert(400, Node { priority: 0, prev: Some(200), next: None });
        list.meta = Some(ListMeta { head: Some(100), tail: Some(400), len: 3 });
    });
    assert_eq!(told(lists), Violation::ReverseDiffers);
    let mut lists = corrupted(100, |_| {});
    lists.mutate(1, |list| list.nodes.insert(400, Node { priority: 0, prev: None, next: None }));
    assert_eq!(told(lists), Violation::Orphans);
    let mut lists = corrupted(100, |_| {});
    lists.mutate(1, |list| {
        for item in [100, 200, 300] {
            list.nodes.remove(item);
        }
    });
    assert_eq!(told(lists), Violation::MetaWithoutNodes);
    assert_eq!(
        Violation::Orphans.message(),
        "orphan ListNodes rows: total count differs from chain length"
    );
}
