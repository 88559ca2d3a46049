//! Stores of items addressed by their unique keys.

use std::collections::HashMap;
use vstd::prelude::*;
use vstd::std_specs::iter::IteratorSpec;

verus! {

broadcast use vstd::std_specs::hash::group_hash_axioms;

/// Items addressed by their unique keys.
pub struct Database<T> {
    pub inner: HashMap<u64, T>,
}

impl<T> View for Database<T> {
    type V = Map<u64, T>;

    open spec fn view(&self) -> Map<u64, T> {
        self.inner@
    }
}

impl<T> Database<T> {
    /// An empty store.
    pub fn new() -> (r: Database<T>)
        ensures
            r@ == Map::<u64, T>::empty(),
    {
        Database { inner: HashMap::new() }
    }

    /// Stores `item` under `ukey`, replacing what was stored there.
    pub fn insert(&mut self, ukey: u64, item: T)
        ensures
            final(self)@ == old(self)@.insert(ukey, item),
    {
        self.inner.insert(ukey, item);
    }

    /// The item stored under `ukey`, if any.
    pub fn get(&self, ukey: u64) -> (r: Option<&T>)
        ensures
            match r {
                Some(v) => self@.contains_key(ukey) && *v == self@[ukey],
                None => !self@.contains_key(ukey),
            },
    {
        self.inner.get(&ukey)
    }

    /// Whether an item is stored under `ukey`.
    pub fn contains(&self, ukey: u64) -> (r: bool)
        ensures
            r == self@.contains_key(ukey),
    {
        self.inner.contains_key(&ukey)
    }

    /// Takes the item stored under `ukey` out of the store.
    pub fn remove(&mut self, ukey: u64) -> (r: Option<T>)
        ensures
            final(self)@ == old(self)@.remove(ukey),
            match r {
                Some(v) => old(self)@.contains_key(ukey) && v == old(self)@[ukey],
                None => !old(self)@.contains_key(ukey),
            },
    {
        self.inner.remove(&ukey)
    }

    /// The number of stored items.
    pub fn len(&self) -> (r: usize)
        ensures
            r == self@.len(),
    {
        self.inner.len()
    }

    /// All keys under which an item is stored, each once, in no particular order.
    pub fn keys(&self) -> (r: Vec<u64>)
        ensures
            r@.to_set() == self@.dom(),
            r@.no_duplicates(),
    {
        let mut r: Vec<u64> = Vec::new();
        let ghost ks = vstd::std_specs::hash::spec_keys_iter(&self.inner).remaining();
        for k in it: self.inner.keys()
            invariant
                it.seq() == ks,
                r@ =~= ks.unref().take(it.index()),
        {
            r.push(*k);
        }
        proof {
            assert(r@ =~= ks.unref());
            assert(ks.unref().to_set() == self@.dom());
            assert(ks.unref().no_duplicates()) by {
                assert(ks.no_duplicates());
            }
        }
        r
    }
}

} // verus!
