//! The most-recently-used eviction stack: an ordered list of hashed keys
//! where an access moves the key to the front and eviction takes the front.
use vstd::prelude::*;

use crate::keylist::{Entry, KeyList, seq_has_key};
use crate::policy::PaperPolicy;
use crate::stack::lru_stack::{lru_insert, lru_update, stack_remove};

verus! {

/// The most-recently-used eviction stack.
pub struct MruStack {
    pub stack: KeyList,
}

impl MruStack {
    /// The keys in recency order, most recent first.
    pub open spec fn view(self) -> Seq<Entry> {
        self.stack.view()
    }

    pub open spec fn wf(self) -> bool {
        self.stack.wf()
    }

    /// Builds an empty stack.
    pub fn new() -> (r: MruStack)
        ensures
            r.wf(),
            r.view() == Seq::<Entry>::empty(),
    {
        MruStack { stack: KeyList::new() }
    }

    /// Returns `true` iff this stack orders under `policy`.
    pub fn is_policy(&self, policy: &PaperPolicy) -> (r: bool)
        ensures
            r == (*policy is Mru),
    {
        matches!(policy, PaperPolicy::Mru)
    }

    /// The number of keys held.
    pub fn len(&self) -> (r: usize)
        ensures
            r == self.view().len(),
    {
        self.stack.len()
    }

    /// Returns `true` iff the stack holds `key`.
    pub fn contains(&self, key: u64) -> (r: bool)
        requires
            self.wf(),
        ensures
            r == seq_has_key(self.view(), key),
    {
        self.stack.contains(key)
    }

    /// Admits `key`: a new key enters at the front, a held key moves to
    /// the front.
    pub fn insert(&mut self, key: u64, _size: u32)
        requires
            old(self).wf(),
        ensures
            final(self).wf(),
            final(self).view() == lru_insert(old(self).view(), key),
    {
        if self.stack.contains(key) {
            self.update(key);
        } else {
            self.stack.push_front(Entry::of_key(key));
        }
    }

    /// Records an access of `key`, moving it to the front.
    pub fn update(&mut self, key: u64)
        requires
            old(self).wf(),
        ensures
            final(self).wf(),
            final(self).view() == lru_update(old(self).view(), key),
    {
        self.stack.move_front(key);
    }

    /// Forgets `key`.
    pub fn remove(&mut self, key: u64)
        requires
            old(self).wf(),
        ensures
            final(self).wf(),
            final(self).view() == stack_remove(old(self).view(), key),
    {
        let _ = self.stack.remove_key(key);
    }

    /// Forgets every key.
    pub fn clear(&mut self)
        ensures
            final(self).wf(),
            final(self).view() == Seq::<Entry>::empty(),
    {
        self.stack.clear();
    }

    /// Takes the most recently used key, or `None` from an empty stack.
    pub fn evict_one(&mut self) -> (r: Option<u64>)
        requires
            old(self).wf(),
        ensures
            final(self).wf(),
            match r {
                Some(key) => old(self).view().len() > 0 && key == old(self).view()[0].key && final(self).view() == old(self).view().drop_first(),
                None => old(self).view().len() == 0 && final(self).view() == old(self).view(),
            },
    {
        match self.stack.pop_front() {
            Some(entry) => Some(entry.key),
            None => None,
        }
    }
}

} // verus!
