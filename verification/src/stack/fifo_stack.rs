//! The first-in-first-out eviction stack: an ordered list of hashed keys
//! where accesses change nothing and eviction takes the oldest key.
use vstd::prelude::*;

use crate::keylist::{Entry, KeyList, seq_has_key};
use crate::policy::PaperPolicy;
use crate::stack::lru_stack::{spec_ent, stack_remove};

verus! {

/// The insertion order after an insert of `key`: a new key enters at the
/// front, a held key leaves the order unchanged.
pub open spec fn fifo_insert(v: Seq<Entry>, key: u64) -> Seq<Entry> {
    if seq_has_key(v, key) {
        v
    } else {
        seq![spec_ent(key)] + v
    }
}

/// The first-in-first-out eviction stack.
pub struct FifoStack {
    pub stack: KeyList,
}

impl FifoStack {
    /// The keys in insertion order, newest first.
    pub open spec fn view(self) -> Seq<Entry> {
        self.stack.view()
    }

    pub open spec fn wf(self) -> bool {
        self.stack.wf()
    }

    /// Builds an empty stack.
    pub fn new() -> (r: FifoStack)
        ensures
            r.wf(),
            r.view() == Seq::<Entry>::empty(),
    {
        FifoStack { stack: KeyList::new() }
    }

    /// Returns `true` iff this stack orders under `policy`.
    pub fn is_policy(&self, policy: &PaperPolicy) -> (r: bool)
        ensures
            r == (*policy is Fifo),
    {
        matches!(policy, PaperPolicy::Fifo)
    }

    /// The number of keys held.
    pub fn len(&self) -> (r: usize)
        ensures
            r == self.view().len(),
    {
        self.stack.len()
    }

    /// Returns `true` iff the stack holds `key`.
    pub fn contains(&self, key: u64) -> (r: bool)
        requires
            self.wf(),
        ensures
            r == seq_has_key(self.view(), key),
    {
        self.stack.contains(key)
    }

    /// Admits `key`: a new key enters at the front; a held key changes
    /// nothing.
    pub fn insert(&mut self, key: u64, _size: u32)
        requires
            old(self).wf(),
        ensures
            final(self).wf(),
            final(self).view() == fifo_insert(old(self).view(), key),
    {
        if !self.stack.contains(key) {
            self.stack.push_front(Entry::of_key(key));
        }
    }

    /// Records an access of `key`; first-in-first-out ignores accesses.
    pub fn update(&mut self, _key: u64)
        ensures
            *final(self) == *old(self),
    {
    }

    /// Forgets `key`.
    pub fn remove(&mut self, key: u64)
        requires
            old(self).wf(),
        ensures
            final(self).wf(),
            final(self).view() == stack_remove(old(self).view(), key),
    {
        let _ = self.stack.remove_key(key);
    }

    /// Forgets every key.
    pub fn clear(&mut self)
        ensures
            final(self).wf(),
            final(self).view() == Seq::<Entry>::empty(),
    {
        self.stack.clear();
    }

    /// Takes the oldest key, or `None` from an empty stack.
    pub fn evict_one(&mut self) -> (r: Option<u64>)
        requires
            old(self).wf(),
        ensures
            final(self).wf(),
            match r {
                Some(key) => old(self).view().len() > 0 && key == old(self).view().last().key
                    && final(self).view() == old(self).view().drop_last(),
                None => old(self).view().len() == 0 && final(self).view() == old(self).view(),
            },
    {
        match self.stack.pop_back() {
            Some(entry) => Some(entry.key),
            None => None,
        }
    }
}

} // verus!
