//! Rows keyed by an integer.

use std::collections::BTreeMap;
use vstd::prelude::*;
use vstd::std_specs::iter::IteratorSpec;

verus! {

/// Stored rows, one per key.
#[derive(Clone, Debug)]
pub struct StorageMap<V> {
    rows: BTreeMap<u64, V>,
}

impl<V> View for StorageMap<V> {
    type V = Map<u64, V>;

    closed spec fn view(&self) -> Map<u64, V> {
        self.rows@
    }
}

impl<V> StorageMap<V> {
    /// No rows.
    pub fn new() -> (map: StorageMap<V>)
        ensures
            map@ == Map::<u64, V>::empty(),
    {
        StorageMap { rows: BTreeMap::new() }
    }

    /// Whether there is a row at `key`.
    pub fn contains_key(&self, key: u64) -> (contained: bool)
        ensures
            contained == self@.contains_key(key),
    {
        broadcast use vstd::std_specs::btree::group_btree_axioms;

        self.rows.contains_key(&key)
    }

    /// The row at `key`, borrowed.
    pub fn peek(&self, key: u64) -> (row: Option<&V>)
        ensures
            match row {
                Some(row) => self@.contains_key(key) && *row == self@[key],
                None => !self@.contains_key(key),
            },
    {
        broadcast use vstd::std_specs::btree::group_btree_axioms;

        self.rows.get(&key)
    }

    /// Writes the row at `key`.
    pub fn insert(&mut self, key: u64, row: V)
        ensures
            final(self)@ == old(self)@.insert(key, row),
    {
        broadcast use vstd::std_specs::btree::group_btree_axioms;

        self.rows.insert(key, row);
    }

    /// Removes the row at `key`, if there is one.
    pub fn remove(&mut self, key: u64)
        ensures
            final(self)@ == old(self)@.remove(key),
    {
        broadcast use vstd::std_specs::btree::group_btree_axioms;

        self.rows.remove(&key);
    }

    /// Takes the row at `key` out.
    pub fn take(&mut self, key: u64) -> (row: Option<V>)
        ensures
            final(self)@ == old(self)@.remove(key),
            match row {
                Some(row) => old(self)@.contains_key(key) && row == old(self)@[key],
                None => !old(self)@.contains_key(key),
            },
    {
        broadcast use vstd::std_specs::btree::group_btree_axioms;

        self.rows.remove(&key)
    }

    /// The number of rows.
    pub fn len(&self) -> (count: usize)
        ensures
            count == self@.dom().len(),
            self@.dom().finite(),
    {
        broadcast use vstd::std_specs::btree::group_btree_axioms;

        self.rows.len()
    }

    /// The keys that have a row, each once.
    pub fn keys(&self) -> (keys: Vec<u64>)
        ensures
            keys@.no_duplicates(),
            keys@.to_set() == self@.dom(),
    {
        broadcast use vstd::std_specs::btree::group_btree_axioms;

        let mut keys: Vec<u64> = Vec::new();
        for key in iter: self.rows.keys()
            invariant
                iter.seq() == vstd::std_specs::btree::spec_keys_iter(&self.rows).remaining(),
                keys@ == iter.seq().unref().take(iter.index()),
        {
            keys.push(*key);
        }
        proof {
            let all = vstd::std_specs::btree::spec_keys_iter(&self.rows).remaining();
            assert(keys@ =~= all.unref());
            assert(all.unref().to_set() == self@.dom());
        }
        keys
    }
}

impl<V: Copy> StorageMap<V> {
    /// A copy of the rows.
    pub fn duplicate(&self) -> (copy: StorageMap<V>)
        ensures
            copy@ == self@,
    {
        StorageMap { rows: self.rows.clone() }
    }

    /// The row at `key`.
    pub fn get(&self, key: u64) -> (row: Option<V>)
        ensures
            row == (if self@.contains_key(key) {
                Some(self@[key])
            } else {
                None
            }),
    {
        broadcast use vstd::std_specs::btree::group_btree_axioms;

        match self.rows.get(&key) {
            Some(row) => Some(*row),
            None => None,
        }
    }
}

} // verus!
