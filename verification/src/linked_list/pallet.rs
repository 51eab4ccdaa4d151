//! Stored lists, their events, and the call that fixes drifted priorities.

use crate::linked_list::interface::{PriorityProvider, SortedListInterface};
use crate::linked_list::list::SortedList;
use crate::linked_list::rows::Rows;
use crate::linked_list::try_state::{violation, Violation};
use crate::linked_list::types::{ItemId, ListError, ListId, Node, Outcome, Position, Priority};
use crate::primitives::origin::RawOrigin;
use crate::storage::StorageMap;
use vstd::prelude::*;

verus! {

/// What happened to a list.
#[derive(Clone, Copy, PartialEq, Eq, Structural, Debug)]
pub enum Event {
    /// An item was inserted into a list.
    ItemInserted {
        /// The list.
        list_id: ListId,
        /// The item.
        item: ItemId,
        /// The item's priority.
        priority: Priority,
    },
    /// An item was removed from a list.
    ItemRemoved {
        /// The list.
        list_id: ListId,
        /// The item.
        item: ItemId,
        /// The item's last priority.
        priority: Priority,
    },
    /// An item's priority was changed.
    ItemReinserted {
        /// The list.
        list_id: ListId,
        /// The item.
        item: ItemId,
        /// The priority before.
        old_priority: Priority,
        /// The priority since.
        new_priority: Priority,
    },
    /// A list was created by inserting its first item.
    ListCreated {
        /// The list.
        list_id: ListId,
    },
    /// A list was removed after its last item was removed.
    ListRemoved {
        /// The list.
        list_id: ListId,
    },
}

/// What a repositioning call did, by which its cost is charged.
#[derive(Clone, Copy, PartialEq, Eq, Structural, Debug)]
pub enum ReprioritizeWeight {
    /// Read the priorities only.
    NoOp,
    /// Changed the priority where the item stands.
    InPlace,
    /// Moved the item.
    Relocate {
        /// Steps that the hint's repair took.
        steps: u32,
    },
    /// Removed the item.
    PriorityRemoved,
}

/// Failure of a repositioning call.
#[derive(Clone, Copy, PartialEq, Eq, Structural, Debug)]
pub enum ReprioritizeError {
    /// The call was not signed.
    BadOrigin,
    /// The list refused it.
    List {
        /// The list's reason.
        error: ListError,
        /// What the call is charged for, or `None` for all that it reserved.
        actual_weight: Option<ReprioritizeWeight>,
    },
}

/// Sorted lists, one per list id.
#[derive(Debug)]
pub struct Pallet {
    /// The lists that have rows.
    pub lists: StorageMap<SortedList>,
    /// Events, oldest first.
    pub events: Vec<Event>,
    /// Nodes that a hint's repair may cross before it gives up. Zero is strict: any hint but the
    /// right place fails at once.
    pub max_hint_repair_steps: u32,
}

/// The events of an insertion into a list that had `before`'s rows.
pub open spec fn insert_events(
    events: Seq<Event>,
    list_id: ListId,
    item: ItemId,
    priority: Priority,
    before: Rows,
) -> Seq<Event> {
    let inserted = Event::ItemInserted { list_id, item, priority };
    if before.meta is None {
        events.push(Event::ListCreated { list_id }).push(inserted)
    } else {
        events.push(inserted)
    }
}

/// The events of a removal that left the rows `after`.
pub open spec fn remove_events(
    events: Seq<Event>,
    list_id: ListId,
    item: ItemId,
    priority: Priority,
    after: Rows,
) -> Seq<Event> {
    let removed = Event::ItemRemoved { list_id, item, priority };
    if after.meta is None {
        events.push(removed).push(Event::ListRemoved { list_id })
    } else {
        events.push(removed)
    }
}

/// The events of a move that ended with `moving`.
pub open spec fn move_events(
    events: Seq<Event>,
    list_id: ListId,
    item: ItemId,
    old_priority: Priority,
    new_priority: Priority,
    moving: Result<Outcome, ListError>,
) -> Seq<Event> {
    match moving {
        Ok(Outcome::NoOp) | Err(_) => events,
        Ok(_) => events.push(Event::ItemReinserted { list_id, item, old_priority, new_priority }),
    }
}

/// What a failed repositioning is charged: an item that is not in the list was noticed after two
/// reads, and anything else may have used the whole budget.
pub open spec fn reprioritize_failure(error: ListError) -> ReprioritizeError {
    ReprioritizeError::List {
        error,
        actual_weight: if error == ListError::ItemNotFound {
            Some(ReprioritizeWeight::NoOp)
        } else {
            None
        },
    }
}

impl Pallet {
    /// No lists.
    pub fn new(max_hint_repair_steps: u32) -> (pallet: Pallet)
        ensures
            forall|list_id: ListId| #[trigger] pallet.rows(list_id) == Rows::none(),
            pallet.events@ == Seq::<Event>::empty(),
            pallet.budget() == max_hint_repair_steps,
    {
        Pallet { lists: StorageMap::new(), events: Vec::new(), max_hint_repair_steps }
    }

    /// Takes a list out of storage.
    fn check_out(&mut self, list_id: ListId) -> (list: SortedList)
        ensures
            list.rows() == old(self).rows(list_id),
            final(self).lists@ == old(self).lists@.remove(list_id),
            final(self).events == old(self).events,
            final(self).max_hint_repair_steps == old(self).max_hint_repair_steps,
    {
        match self.lists.take(list_id) {
            Some(list) => list,
            None => SortedList::new(),
        }
    }

    /// Puts a list back into storage, unless it has no rows.
    fn check_in(&mut self, list_id: ListId, list: SortedList)
        requires
            !old(self).lists@.contains_key(list_id),
        ensures
            final(self).lists@ == (if list.rows() == Rows::none() {
                old(self).lists@
            } else {
                old(self).lists@.insert(list_id, list)
            }),
            final(self).events == old(self).events,
            final(self).max_hint_repair_steps == old(self).max_hint_repair_steps,
    {
        if list.meta.is_some() || list.nodes.len() > 0 {
            assert(Map::<ItemId, Node>::empty().dom() =~= Set::empty());
            self.lists.insert(list_id, list);
        } else {
            assert(list.nodes@ =~= Map::empty());
        }
    }

    /// Deposits the events of a removal.
    fn deposit_removed(
        &mut self,
        list_id: ListId,
        item: ItemId,
        priority: Priority,
        list_removed: bool,
    )
        ensures
            final(self).lists == old(self).lists,
            final(self).max_hint_repair_steps == old(self).max_hint_repair_steps,
            final(self).events@ == (if list_removed {
                old(self).events@.push(Event::ItemRemoved { list_id, item, priority }).push(
                    Event::ListRemoved { list_id },
                )
            } else {
                old(self).events@.push(Event::ItemRemoved { list_id, item, priority })
            }),
    {
        self.events.push(Event::ItemRemoved { list_id, item, priority });
        if list_removed {
            self.events.push(Event::ListRemoved { list_id });
        }
    }

    /// Brings an item to `real_priority`, its authoritative priority, or removes it if there is none.
    pub fn settle_reprioritize(
        &mut self,
        list_id: ListId,
        item: ItemId,
        real_priority: Option<Priority>,
        hint: Position,
    ) -> (settled: Result<ReprioritizeWeight, ReprioritizeError>)
        ensures
            Self::reprioritizes(
                *old(self),
                list_id,
                item,
                real_priority,
                hint,
                settled,
                *final(self),
            ),
            forall|other: ListId|
                other != list_id ==> #[trigger] final(self).rows(other) == old(self).rows(other),
    {
        let real_priority = match real_priority {
            Some(real_priority) => real_priority,
            None => {
                let removed = self.remove(list_id, item);
                return match removed {
                    Ok(_) => Ok(ReprioritizeWeight::PriorityRemoved),
                    Err(error) => Err(Self::charged(error)),
                };
            },
        };
        let moving = self.re_insert(list_id, item, real_priority, hint);
        match moving {
            Ok(Outcome::NoOp) => Ok(ReprioritizeWeight::NoOp),
            Ok(Outcome::InPlace) => Ok(ReprioritizeWeight::InPlace),
            Ok(Outcome::Relocated { steps }) => Ok(ReprioritizeWeight::Relocate { steps }),
            Err(error) => Err(Self::charged(error)),
        }
    }

    /// What a failed repositioning is charged.
    fn charged(error: ListError) -> (failure: ReprioritizeError)
        ensures
            failure == reprioritize_failure(error),
    {
        let actual_weight = match error {
            ListError::ItemNotFound => Some(ReprioritizeWeight::NoOp),
            _ => None,
        };
        ReprioritizeError::List { error, actual_weight }
    }

    /// Whether bringing an item to `real_priority` can end with `settled` and the state `after`.
    pub open spec fn reprioritizes(
        before: Pallet,
        list_id: ListId,
        item: ItemId,
        real_priority: Option<Priority>,
        hint: Position,
        settled: Result<ReprioritizeWeight, ReprioritizeError>,
        after: Pallet,
    ) -> bool {
        let rows = before.rows(list_id);
        let stored = rows.nodes[item].priority;
        &&& after.budget() == before.budget()
        &&& match real_priority {
            None => {
                let removed = match settled {
                    Ok(_) => Ok(stored),
                    Err(failure) => Err(failure->error),
                };
                &&& rows.removes(item, removed, after.rows(list_id))
                &&& match settled {
                    Ok(weight) => {
                        &&& weight == ReprioritizeWeight::PriorityRemoved
                        &&& after.events@ == remove_events(
                            before.events@,
                            list_id,
                            item,
                            stored,
                            after.rows(list_id),
                        )
                    },
                    Err(failure) => {
                        &&& failure == reprioritize_failure(failure->error)
                        &&& after.events@ == before.events@
                    },
                }
            },
            Some(priority) => {
                let moving = match settled {
                    Ok(ReprioritizeWeight::NoOp) => Ok(Outcome::NoOp),
                    Ok(ReprioritizeWeight::InPlace) => Ok(Outcome::InPlace),
                    Ok(ReprioritizeWeight::Relocate { steps }) => Ok(Outcome::Relocated { steps }),
                    Ok(ReprioritizeWeight::PriorityRemoved) => Err(ListError::Internal),
                    Err(failure) => Err(failure->error),
                };
                &&& settled != Ok::<ReprioritizeWeight, ReprioritizeError>(
                    ReprioritizeWeight::PriorityRemoved,
                )
                &&& rows.moves(
                    item,
                    priority,
                    hint,
                    before.budget(),
                    moving,
                    after.rows(list_id),
                )
                &&& settled matches Err(failure) ==> failure == reprioritize_failure(failure->error)
                &&& after.events@ == move_events(
                    before.events@,
                    list_id,
                    item,
                    stored,
                    priority,
                    moving,
                )
            },
        }
    }

    /// Reads an item's authoritative priority and brings the item to it.
    fn do_reprioritize<Provider: PriorityProvider>(
        &mut self,
        provider: &Provider,
        list_id: ListId,
        item: ItemId,
        hint: Position,
    ) -> (settled: Result<ReprioritizeWeight, ReprioritizeError>)
        ensures
            exists|real_priority: Option<Priority>|
                {
                    &&& call_ensures(Provider::priority, (provider, list_id, item), real_priority)
                    &&& #[trigger] Self::reprioritizes(
                        *old(self),
                        list_id,
                        item,
                        real_priority,
                        hint,
                        settled,
                        *final(self),
                    )
                },
            forall|other: ListId|
                other != list_id ==> #[trigger] final(self).rows(other) == old(self).rows(other),
    {
        let ask = Provider::priority;
        let real_priority = ask(provider, list_id, item);
        self.settle_reprioritize(list_id, item, real_priority, hint)
    }

    /// Brings an item to its authoritative priority once that has drifted from the stored one, or
    /// removes it once it has none. Any signed origin may call this; the hint is repaired within the
    /// budget.
    pub fn reprioritize<AccountId, Provider: PriorityProvider>(
        &mut self,
        origin: RawOrigin<AccountId>,
        provider: &Provider,
        list_id: ListId,
        item: ItemId,
        hint: Position,
    ) -> (settled: Result<ReprioritizeWeight, ReprioritizeError>)
        ensures
            if origin is Signed {
                exists|real_priority: Option<Priority>|
                    {
                        &&& call_ensures(Provider::priority, (provider, list_id, item), real_priority)
                        &&& #[trigger] Self::reprioritizes(
                            *old(self),
                            list_id,
                            item,
                            real_priority,
                            hint,
                            settled,
                            *final(self),
                        )
                    }
            } else {
                &&& settled == Err::<ReprioritizeWeight, ReprioritizeError>(
                    ReprioritizeError::BadOrigin,
                )
                &&& *final(self) == *old(self)
            },
            forall|other: ListId|
                other != list_id ==> #[trigger] final(self).rows(other) == old(self).rows(other),
    {
        match origin {
            RawOrigin::Signed(_) => self.do_reprioritize(provider, list_id, item, hint),
            _ => Err(ReprioritizeError::BadOrigin),
        }
    }

    /// Checks that the rows of every list hold a list. A contradiction found is the error.
    pub fn do_try_state(&self) -> (checked: Result<(), Violation>)
        ensures
            match checked {
                Ok(_) => forall|list_id: ListId|
                    violation((#[trigger] self.rows(list_id)).nodes, self.rows(list_id).meta) is None,
                Err(found) => exists|list_id: ListId|
                    violation((#[trigger] self.rows(list_id)).nodes, self.rows(list_id).meta)
                        == Some(found),
            },
    {
        let keys = self.lists.keys();
        let mut i: usize = 0;
        while i < keys.len()
            invariant
                keys@.to_set() == self.lists@.dom(),
                i <= keys@.len(),
                forall|k: int|
                    0 <= k < i ==> violation(
                        self.rows(#[trigger] keys@[k]).nodes,
                        self.rows(keys@[k]).meta,
                    ) is None,
            decreases keys@.len() - i,
        {
            assert(keys@.to_set().contains(keys@[i as int]));
            if let Some(list) = self.lists.peek(keys[i]) {
                assert(list.rows() == self.rows(keys@[i as int]));
                if let Err(found) = list.try_state_list() {
                    return Err(found);
                }
            }
            i = i + 1;
        }
        proof {
            assert forall|list_id: ListId| violation(
                (#[trigger] self.rows(list_id)).nodes,
                self.rows(list_id).meta,
            ) is None by {
                if self.lists@.contains_key(list_id) {
                    assert(keys@.to_set().contains(list_id));
                    let k = keys@.index_of(list_id);
                    assert(keys@[k] == list_id);
                } else {
                    assert(Map::<ItemId, Node>::empty().dom() =~= Set::empty());
                }
            }
        }
        Ok(())
    }
}

impl SortedListInterface for Pallet {
    open spec fn rows(&self, list_id: ListId) -> Rows {
        if self.lists@.contains_key(list_id) {
            self.lists@[list_id].rows()
        } else {
            Rows::none()
        }
    }

    open spec fn budget(&self) -> u32 {
        self.max_hint_repair_steps
    }

    fn insert(&mut self, list_id: ListId, item: ItemId, priority: Priority, hint: Position) -> (inserted:
        Result<u32, ListError>)
        ensures
            final(self).events@ == (match inserted {
                Ok(_) => insert_events(
                    old(self).events@,
                    list_id,
                    item,
                    priority,
                    old(self).rows(list_id),
                ),
                Err(_) => old(self).events@,
            }),
    {
        let budget = self.max_hint_repair_steps;
        let mut list = self.check_out(list_id);
        let created = list.meta.is_none();
        let inserted = list.insert(item, priority, hint, budget);
        self.check_in(list_id, list);
        if inserted.is_ok() {
            if created {
                self.events.push(Event::ListCreated { list_id });
            }
            self.events.push(Event::ItemInserted { list_id, item, priority });
        }
        inserted
    }

    fn remove(&mut self, list_id: ListId, item: ItemId) -> (removed: Result<(), ListError>)
        ensures
            final(self).events@ == (match removed {
                Ok(_) => remove_events(
                    old(self).events@,
                    list_id,
                    item,
                    old(self).rows(list_id).nodes[item].priority,
                    final(self).rows(list_id),
                ),
                Err(_) => old(self).events@,
            }),
    {
        let mut list = self.check_out(list_id);
        let removed = list.remove_at(item);
        let list_removed = list.meta.is_none();
        self.check_in(list_id, list);
        match removed {
            Ok(node) => {
                self.deposit_removed(list_id, item, node.priority, list_removed);
                Ok(())
            },
            Err(error) => Err(error),
        }
    }

    fn pop_tail(&mut self, list_id: ListId) -> (popped: Result<
        Option<(ItemId, Priority)>,
        ListError,
    >)
        ensures
            final(self).events@ == (match popped {
                Ok(Some((item, priority))) => remove_events(
                    old(self).events@,
                    list_id,
                    item,
                    priority,
                    final(self).rows(list_id),
                ),
                _ => old(self).events@,
            }),
    {
        let mut list = self.check_out(list_id);
        let popped = list.pop_tail();
        let list_removed = list.meta.is_none();
        self.check_in(list_id, list);
        if let Ok(Some((item, priority))) = popped {
            self.deposit_removed(list_id, item, priority, list_removed);
        }
        popped
    }

    fn re_insert(
        &mut self,
        list_id: ListId,
        item: ItemId,
        new_priority: Priority,
        hint: Position,
    ) -> (moving: Result<Outcome, ListError>)
        ensures
            final(self).events@ == move_events(
                old(self).events@,
                list_id,
                item,
                old(self).rows(list_id).nodes[item].priority,
                new_priority,
                moving,
            ),
    {
        let budget = self.max_hint_repair_steps;
        let mut list = self.check_out(list_id);
        let existing = list.node(item);
        let moving = list.re_insert(item, new_priority, hint, budget);
        self.check_in(list_id, list);
        if let Some((old_priority, _)) = existing {
            let reinserted = match moving {
                Ok(Outcome::InPlace) => true,
                Ok(Outcome::Relocated { .. }) => true,
                _ => false,
            };
            if reinserted {
                self.events.push(
                    Event::ItemReinserted { list_id, item, old_priority, new_priority },
                );
            }
        }
        moving
    }

    fn head(&self, list_id: ListId) -> (head: Option<ItemId>) {
        match self.lists.peek(list_id) {
            Some(list) => list.head(),
            None => None,
        }
    }

    fn tail(&self, list_id: ListId) -> (tail: Option<ItemId>) {
        match self.lists.peek(list_id) {
            Some(list) => list.tail(),
            None => None,
        }
    }

    fn count(&self, list_id: ListId) -> (count: u32) {
        match self.lists.peek(list_id) {
            Some(list) => list.count(),
            None => 0,
        }
    }

    fn contains(&self, list_id: ListId, item: ItemId) -> (contained: bool) {
        match self.lists.peek(list_id) {
            Some(list) => list.contains(item),
            None => false,
        }
    }

    fn node(&self, list_id: ListId, item: ItemId) -> (node: Option<(Priority, Position)>) {
        match self.lists.peek(list_id) {
            Some(list) => list.node(item),
            None => None,
        }
    }

    fn iter_from_tail(&self, list_id: ListId, n: u32) -> (items: Vec<ItemId>) {
        match self.lists.peek(list_id) {
            Some(list) => list.iter_from_tail(n),
            None => Vec::new(),
        }
    }

    fn find_position(&self, list_id: ListId, priority: Priority) -> (position: Position) {
        match self.lists.peek(list_id) {
            Some(list) => list.find_position(priority),
            None => SortedList::new().find_position(priority),
        }
    }

    fn find_re_insert_position(&self, list_id: ListId, item: ItemId, new_priority: Priority) -> (position:
        Option<Position>) {
        match self.lists.peek(list_id) {
            Some(list) => list.find_re_insert_position(item, new_priority),
            None => None,
        }
    }

    fn repair_steps_needed(&self, list_id: ListId, priority: Priority, hint: Position) -> (steps: u32) {
        match self.lists.peek(list_id) {
            Some(list) => list.repair_steps_needed(priority, hint, self.max_hint_repair_steps),
            None => SortedList::new().repair_steps_needed(
                priority,
                hint,
                self.max_hint_repair_steps,
            ),
        }
    }

    fn re_insert_steps_needed(
        &self,
        list_id: ListId,
        item: ItemId,
        new_priority: Priority,
        hint: Position,
    ) -> (steps: u32) {
        let budget = self.max_hint_repair_steps;
        match self.lists.peek(list_id) {
            Some(list) => list.re_insert_steps_needed(item, new_priority, hint, budget),
            None => SortedList::new().re_insert_steps_needed(item, new_priority, hint, budget),
        }
    }

    fn repair_budget(&self) -> (budget: u32) {
        self.max_hint_repair_steps
    }
}

} // verus!
