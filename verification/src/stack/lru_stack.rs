//! The least-recently-used eviction stack: an ordered list of hashed keys
//! where an access moves the key to the front and eviction takes the back.
use vstd::prelude::*;

use crate::keylist::{Entry, KeyList, entry_of, key_index, seq_has_key};
use crate::policy::PaperPolicy;

verus! {

/// The entry an eviction stack orders for a bare key.
pub open spec fn spec_ent(key: u64) -> Entry {
    Entry { key, size: 0, visited: false, freq: 0 }
}

/// The recency order after an access of `key`: the key moves to the front;
/// a key the stack does not hold leaves it unchanged.
pub open spec fn lru_update(v: Seq<Entry>, key: u64) -> Seq<Entry> {
    if seq_has_key(v, key) {
        seq![entry_of(v, key)] + v.remove(key_index(v, key))
    } else {
        v
    }
}

/// The recency order after an insert of `key`: a new key enters at the
/// front, a held key moves to the front.
pub open spec fn lru_insert(v: Seq<Entry>, key: u64) -> Seq<Entry> {
    if seq_has_key(v, key) {
        lru_update(v, key)
    } else {
        seq![spec_ent(key)] + v
    }
}

/// The order after a removal of `key`.
pub open spec fn stack_remove(v: Seq<Entry>, key: u64) -> Seq<Entry> {
    if seq_has_key(v, key) {
        v.remove(key_index(v, key))
    } else {
        v
    }
}

/// The least-recently-used eviction stack.
pub struct LruStack {
    pub stack: KeyList,
}

impl LruStack {
    /// The keys in recency order, most recent first.
    pub open spec fn view(self) -> Seq<Entry> {
        self.stack.view()
    }

    pub open spec fn wf(self) -> bool {
        self.stack.wf()
    }

    /// Builds an empty stack.
    pub fn new() -> (r: LruStack)
        ensures
            r.wf(),
            r.view() == Seq::<Entry>::empty(),
    {
        LruStack { stack: KeyList::new() }
    }

    /// Returns `true` iff this stack orders under `policy`.
    pub fn is_policy(&self, policy: &PaperPolicy) -> (r: bool)
        ensures
            r == (*policy is Lru),
    {
        matches!(policy, PaperPolicy::Lru)
    }

    /// The number of keys held.
    pub fn len(&self) -> (r: usize)
        ensures
            r == self.view().len(),
    {
        self.stack.len()
    }

    /// Returns `true` iff the stack holds `key`.
    pub fn contains(&self, key: u64) -> (r: bool)
        requires
            self.wf(),
        ensures
            r == seq_has_key(self.view(), key),
    {
        self.stack.contains(key)
    }

    /// Admits `key`: a new key enters at the front, a held key moves to
    /// the front.
    pub fn insert(&mut self, key: u64, _size: u32)
        requires
            old(self).wf(),
        ensures
            final(self).wf(),
            final(self).view() == lru_insert(old(self).view(), key),
    {
        if self.stack.contains(key) {
            self.update(key);
        } else {
            self.stack.push_front(Entry::of_key(key));
        }
    }

    /// Records an access of `key`, moving it to the front.
    pub fn update(&mut self, key: u64)
        requires
            old(self).wf(),
        ensures
            final(self).wf(),
            final(self).view() == lru_update(old(self).view(), key),
    {
        self.stack.move_front(key);
    }

    /// Forgets `key`.
    pub fn remove(&mut self, key: u64)
        requires
            old(self).wf(),
        ensures
            final(self).wf(),
            final(self).view() == stack_remove(old(self).view(), key),
    {
        let _ = self.stack.remove_key(key);
    }

    /// Forgets every key.
    pub fn clear(&mut self)
        ensures
            final(self).wf(),
            final(self).view() == Seq::<Entry>::empty(),
    {
        self.stack.clear();
    }

    /// Takes the least recently used key, or `None` from an empty stack.
    pub fn evict_one(&mut self) -> (r: Option<u64>)
        requires
            old(self).wf(),
        ensures
            final(self).wf(),
            match r {
                Some(key) => old(self).view().len() > 0 && key == old(self).view().last().key
                    && final(self).view() == old(self).view().drop_last(),
                None => old(self).view().len() == 0 && final(self).view() == old(self).view(),
            },
    {
        match self.stack.pop_back() {
            Some(entry) => Some(entry.key),
            None => None,
        }
    }
}

} // verus!
