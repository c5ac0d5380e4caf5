//! The pending-operation store.
//!
//! An accept operation hands the kernel the address of a buffer in which the
//! kernel records who connected. The buffer has to stay where it is, and stay
//! alive, until the accept has completed. The store owns these buffers, one
//! for every accept that is in flight, under the identifier of the accept.
//!
//! The store never looks inside a buffer; `B` is whatever the driver uses. A
//! value of `B` is moved when it enters and leaves the store, so `B` must keep
//! the memory the kernel writes to at a fixed address across moves, as a
//! `Box` does.

use std::collections::HashMap;
use vstd::prelude::*;

verus! {

broadcast use vstd::std_specs::hash::group_hash_axioms;

/// The buffers of the accepts that are in flight, by identifier.
pub struct PendingStore<B> {
    entries: HashMap<u32, B>,
}

impl<B> View for PendingStore<B> {
    type V = Map<u32, B>;

    /// The store as a map from identifier to buffer.
    closed spec fn view(&self) -> Map<u32, B> {
        self.entries@
    }
}

impl<B> PendingStore<B> {
    /// Creates a store that holds nothing.
    pub fn new() -> (store: Self)
        ensures
            store@ == Map::<u32, B>::empty(),
    {
        PendingStore { entries: HashMap::new() }
    }

    /// Puts `buffer` into the store under `id`.
    ///
    /// If the store already holds a buffer under `id`, that buffer leaves the
    /// store and is returned. An accept with this identifier may then still be
    /// in flight: the buffer must not be freed while it is.
    pub fn insert(&mut self, id: u32, buffer: B) -> (displaced: Option<B>)
        ensures
            final(self)@ == old(self)@.insert(id, buffer),
            displaced == (if old(self)@.contains_key(id) {
                Some(old(self)@[id])
            } else {
                None
            }),
    {
        self.entries.insert(id, buffer)
    }

    /// Takes the buffer stored under `id` out of the store and returns it.
    ///
    /// Nothing happens, and `None` is returned, if there is none.
    pub fn remove(&mut self, id: u32) -> (removed: Option<B>)
        ensures
            final(self)@ == old(self)@.remove(id),
            removed == (if old(self)@.contains_key(id) {
                Some(old(self)@[id])
            } else {
                None
            }),
    {
        self.entries.remove(&id)
    }

    /// Tells whether the store holds a buffer under `id`.
    pub fn contains(&self, id: u32) -> (held: bool)
        ensures
            held == self@.contains_key(id),
    {
        self.entries.contains_key(&id)
    }

    /// Returns the number of buffers in the store.
    pub fn len(&self) -> (count: usize)
        ensures
            self@.dom().finite(),
            count == self@.len(),
    {
        self.entries.len()
    }

    /// Tells whether the store holds nothing.
    pub fn is_empty(&self) -> (empty: bool)
        ensures
            empty == (self@ == Map::<u32, B>::empty()),
    {
        let empty = self.entries.is_empty();
        proof {
            if empty {
                assert(self@ =~= Map::<u32, B>::empty());
            }
        }
        empty
    }
}

} // verus!
