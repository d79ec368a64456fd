//! An ordered queue of keyed entries that accounts the bytes it holds,
//! shared by the eviction stacks that bound their sub-queues by size.
use vstd::prelude::*;

use crate::keylist::{
    Entry, KeyList, entry_of, key_index, lemma_size_sum_push, lemma_size_sum_remove,
    lemma_size_sum_update, seq_has_key, size_sum,
};

verus! {

/// No key is held by both orders.
pub open spec fn queues_disjoint(u: Seq<Entry>, v: Seq<Entry>) -> bool {
    forall|key: u64|
        #![trigger seq_has_key(u, key)]
        #![trigger seq_has_key(v, key)]
        !(seq_has_key(u, key) && seq_has_key(v, key))
}

/// An ordered queue of keyed entries with a ledger of the bytes it holds.
pub struct SizedQueue {
    pub stack: KeyList,
    pub used_size: u128,
}

impl SizedQueue {
    /// The entries from front to back.
    pub open spec fn view(self) -> Seq<Entry> {
        self.stack.view()
    }

    /// The bytes held, per the ledger.
    pub open spec fn spec_used(self) -> u128 {
        self.used_size
    }

    /// The queue is well formed when its keys are unique and its ledger
    /// equals the sum of its entries' sizes.
    pub open spec fn wf(self) -> bool {
        self.stack.wf() && self.used_size == size_sum(self.stack.view())
    }

    /// Builds an empty queue.
    pub fn new() -> (r: SizedQueue)
        ensures
            r.wf(),
            r.view() == Seq::<Entry>::empty(),
    {
        SizedQueue { stack: KeyList::new(), used_size: 0 }
    }

    /// The number of entries.
    pub fn len(&self) -> (r: usize)
        ensures
            r == self.view().len(),
    {
        self.stack.len()
    }

    /// Returns `true` iff the queue holds no entry.
    pub fn is_empty(&self) -> (r: bool)
        ensures
            r == (self.view().len() == 0),
    {
        self.stack.is_empty()
    }

    /// Returns `true` iff the queue holds an entry for `key`.
    pub fn contains(&self, key: u64) -> (r: bool)
        requires
            self.wf(),
        ensures
            r == seq_has_key(self.view(), key),
    {
        self.stack.contains(key)
    }

    /// The entry for `key`, or `None` where no entry carries it.
    pub fn get_entry(&self, key: u64) -> (r: Option<Entry>)
        requires
            self.wf(),
        ensures
            match r {
                Some(e) => seq_has_key(self.view(), key) && e == entry_of(self.view(), key),
                None => !seq_has_key(self.view(), key),
            },
    {
        self.stack.get_entry(key)
    }

    /// The bytes held.
    pub fn used(&self) -> (r: u128)
        ensures
            r == self.spec_used(),
    {
        self.used_size
    }

    /// Puts `entry` at the front.  The key must not already stand in the
    /// queue.
    pub fn push_entry(&mut self, entry: Entry)
        requires
            old(self).wf(),
            !seq_has_key(old(self).view(), entry.key),
        ensures
            final(self).wf(),
            final(self).view() == seq![entry] + old(self).view(),
    {
        let n = self.stack.len();
        proof {
            lemma_size_sum_fits(self.stack.view(), n);
            lemma_size_sum_push(entry, self.stack.view());
        }
        self.used_size = self.used_size + entry.size as u128;
        self.stack.push_front(entry);
    }

    /// Removes the entry for `key` and returns it, or returns `None`
    /// leaving the queue as it stands.
    pub fn remove_key(&mut self, key: u64) -> (r: Option<Entry>)
        requires
            old(self).wf(),
        ensures
            final(self).wf(),
            match r {
                Some(e) => {
                    &&& seq_has_key(old(self).view(), key)
                    &&& e == entry_of(old(self).view(), key)
                    &&& final(self).view() == old(self).view().remove(
                        key_index(old(self).view(), key),
                    )
                },
                None => !seq_has_key(old(self).view(), key) && *final(self) == *old(self),
            },
    {
        let ghost pre = self.stack.view();
        match self.stack.remove_key(key) {
            Some(entry) => {
                proof {
                    lemma_size_sum_remove(pre, key_index(pre, key));
                }
                self.used_size = self.used_size - entry.size as u128;
                Some(entry)
            },
            None => None,
        }
    }

    /// Takes the back entry, or `None` from an empty queue.
    pub fn pop_back(&mut self) -> (r: Option<Entry>)
        requires
            old(self).wf(),
        ensures
            final(self).wf(),
            match r {
                Some(e) => old(self).view().len() > 0 && e == old(self).view().last() && final(self).view() == old(self).view().drop_last(),
                None => old(self).view().len() == 0 && *final(self) == *old(self),
            },
    {
        let ghost pre = self.stack.view();
        match self.stack.pop_back() {
            Some(entry) => {
                proof {
                    lemma_size_sum_remove(pre, pre.len() - 1);
                    assert(pre.remove(pre.len() - 1) =~= pre.drop_last());
                }
                self.used_size = self.used_size - entry.size as u128;
                Some(entry)
            },
            None => None,
        }
    }

    /// Rewrites the size carried for `key`; a key the queue does not hold
    /// leaves it as it stands.
    pub fn update_size(&mut self, key: u64, size: u32)
        requires
            old(self).wf(),
        ensures
            final(self).wf(),
            seq_has_key(old(self).view(), key) ==> final(self).view() == old(self).view().update(
                key_index(old(self).view(), key),
                (Entry { size, ..entry_of(old(self).view(), key) }),
            ),
            !seq_has_key(old(self).view(), key) ==> final(self).view() == old(self).view(),
    {
        let ghost pre = self.stack.view();
        let n = self.stack.len();
        match self.stack.get_entry(key) {
            Some(entry) => {
                proof {
                    lemma_size_sum_fits(pre, n);
                    lemma_size_sum_update(
                        pre,
                        key_index(pre, key),
                        Entry { size, ..entry_of(pre, key) },
                    );
                    crate::keylist::lemma_size_sum_lower(pre, key_index(pre, key));
                }
                self.used_size = self.used_size - entry.size as u128 + size as u128;
                self.stack.replace(key, Entry { size, ..entry });
            },
            None => (),
        }
    }

    /// Forgets every entry.
    pub fn clear(&mut self)
        ensures
            final(self).wf(),
            final(self).view() == Seq::<Entry>::empty(),
    {
        self.stack.clear();
        self.used_size = 0;
    }
}

/// The size sum of a queue short enough to address is far below the
/// ledger's capacity.
pub proof fn lemma_size_sum_fits(v: Seq<Entry>, n: usize)
    requires
        v.len() == n,
    ensures
        size_sum(v) <= 0xFFFF_FFFF_FFFF_FFFF * 0xFFFF_FFFFu128,
{
    lemma_size_sum_upper(v);
    assert(v.len() * 0xFFFF_FFFFu128 <= 0xFFFF_FFFF_FFFF_FFFF * 0xFFFF_FFFFu128) by (nonlinear_arith)
        requires
            v.len() <= 0xFFFF_FFFF_FFFF_FFFFu128,
    ;
}

/// The size sum is at most one full-size entry per position.
pub proof fn lemma_size_sum_upper(v: Seq<Entry>)
    ensures
        size_sum(v) <= v.len() * 0xFFFF_FFFFu128,
    decreases v.len(),
{
    if v.len() > 0 {
        lemma_size_sum_upper(v.drop_last());
    }
}

} // verus!
