//! The two-queue eviction stack: an admission queue `A1in`, a ghost queue
//! `A1out` and a main queue `Am`.  New keys enter `A1in`; its overflow
//! drains into `A1out`; a hit in `A1out` promotes the key into `Am`; a hit
//! in `Am` moves it to the front.  Eviction prefers `A1out`, then `A1in`,
//! then `Am`.
use vstd::prelude::*;

use crate::keylist::{
    Entry, entry_of, key_index, lemma_has_key_push, lemma_has_key_remove, lemma_has_key_update,
    seq_has_key, size_sum,
};
use crate::policy::{PaperPolicy, RATIO_SCALE};
use crate::stack::lru_stack::lru_update;
use crate::stack::sized_queue::{SizedQueue, queues_disjoint};

verus! {

/// The admission and ghost queues after draining the admission queue
/// until `size` more bytes fit it: back entries of the admission queue
/// move onto the front of the ghost queue.
pub open spec fn two_q_restructure(
    in_keys: Seq<Entry>,
    out_keys: Seq<Entry>,
    size: u32,
    in_max: u64,
) -> (Seq<Entry>, Seq<Entry>)
    decreases in_keys.len(),
{
    if size_sum(in_keys) + size <= in_max {
        (in_keys, out_keys)
    } else if in_keys.len() == 0 {
        (in_keys, out_keys)
    } else {
        two_q_restructure(
            in_keys.drop_last(),
            seq![in_keys.last()] + out_keys,
            size,
            in_max,
        )
    }
}

/// The three queues after an access of `key`: a ghost hit promotes the
/// key to the front of the main queue, a main hit moves it to the front,
/// anything else changes nothing.
pub open spec fn two_q_update(
    in_keys: Seq<Entry>,
    out_keys: Seq<Entry>,
    am_keys: Seq<Entry>,
    key: u64,
) -> (Seq<Entry>, Seq<Entry>, Seq<Entry>) {
    if seq_has_key(out_keys, key) {
        (
            in_keys,
            out_keys.remove(key_index(out_keys, key)),
            seq![entry_of(out_keys, key)] + am_keys,
        )
    } else {
        (in_keys, out_keys, lru_update(am_keys, key))
    }
}

/// One queue's entries after the size carried for `key` is rewritten,
/// where the queue holds the key.
pub open spec fn sized_update(v: Seq<Entry>, key: u64, size: u32) -> Seq<Entry> {
    if seq_has_key(v, key) {
        v.update(key_index(v, key), Entry { size, ..entry_of(v, key) })
    } else {
        v
    }
}

/// The two-queue eviction stack.
pub struct TwoQStack {
    /// The admission-queue ratio, in parts per million of the cache size.
    pub k_in: u32,
    /// The ghost-queue ratio, in parts per million of the cache size.
    pub k_out: u32,
    pub a1_in: SizedQueue,
    pub a1_out: SizedQueue,
    pub am: SizedQueue,
    pub in_max: u64,
    pub out_max: u64,
}

impl TwoQStack {
    pub open spec fn in_view(self) -> Seq<Entry> {
        self.a1_in.view()
    }

    pub open spec fn out_view(self) -> Seq<Entry> {
        self.a1_out.view()
    }

    pub open spec fn am_view(self) -> Seq<Entry> {
        self.am.view()
    }

    /// Whether any queue holds `key`.
    pub open spec fn spec_contains(self, key: u64) -> bool {
        seq_has_key(self.in_view(), key) || seq_has_key(self.out_view(), key) || seq_has_key(
            self.am_view(),
            key,
        )
    }

    pub open spec fn wf(self) -> bool {
        &&& self.k_in <= RATIO_SCALE
        &&& self.k_out <= RATIO_SCALE
        &&& self.a1_in.wf()
        &&& self.a1_out.wf()
        &&& self.am.wf()
        &&& queues_disjoint(self.in_view(), self.out_view())
        &&& queues_disjoint(self.in_view(), self.am_view())
        &&& queues_disjoint(self.out_view(), self.am_view())
    }

    /// Builds an empty stack for a cache of `max_size` bytes, sizing the
    /// admission and ghost queues by the two ratios.
    pub fn new(k_in: u32, k_out: u32, max_size: u64) -> (r: TwoQStack)
        requires
            k_in <= RATIO_SCALE,
            k_out <= RATIO_SCALE,
        ensures
            r.wf(),
            r.in_view() == Seq::<Entry>::empty(),
            r.out_view() == Seq::<Entry>::empty(),
            r.am_view() == Seq::<Entry>::empty(),
            r.k_in == k_in,
            r.k_out == k_out,
            r.in_max == ratio_of(max_size, k_in),
            r.out_max == ratio_of(max_size, k_out),
    {
        TwoQStack {
            k_in,
            k_out,
            a1_in: SizedQueue::new(),
            a1_out: SizedQueue::new(),
            am: SizedQueue::new(),
            in_max: apply_ratio(max_size, k_in),
            out_max: apply_ratio(max_size, k_out),
        }
    }

    /// Returns `true` iff this stack orders under `policy`.
    pub fn is_policy(&self, policy: &PaperPolicy) -> (r: bool)
        ensures
            r == (policy matches PaperPolicy::TwoQ(a, b) && a == self.k_in && b == self.k_out),
    {
        match policy {
            PaperPolicy::TwoQ(a, b) => *a == self.k_in && *b == self.k_out,
            _ => false,
        }
    }

    /// The number of keys held over the three queues, saturating at the
    /// largest count.
    pub fn len(&self) -> (r: usize)
        ensures
            r == crate::stack::two_q_stack::sat_usize(
                self.in_view().len() + self.out_view().len() + self.am_view().len() as int,
            ),
    {
        self.a1_in.len().saturating_add(self.a1_out.len()).saturating_add(self.am.len())
    }

    /// Returns `true` iff any queue holds `key`.
    pub fn contains(&self, key: u64) -> (r: bool)
        requires
            self.wf(),
        ensures
            r == self.spec_contains(key),
    {
        self.a1_in.contains(key) || self.a1_out.contains(key) || self.am.contains(key)
    }

    /// Admits `key` of `size` bytes: a held key has its size refreshed
    /// and is treated as accessed; a new key enters the admission queue
    /// after its overflow drains into the ghost queue.
    pub fn insert(&mut self, key: u64, size: u32)
        requires
            old(self).wf(),
        ensures
            final(self).wf(),
            old(self).spec_contains(key) ==> {
                let refreshed_in = sized_update(old(self).in_view(), key, size);
                let refreshed_out = sized_update(old(self).out_view(), key, size);
                let refreshed_am = sized_update(old(self).am_view(), key, size);
                let stepped = two_q_update(refreshed_in, refreshed_out, refreshed_am, key);
                &&& final(self).in_view() == stepped.0
                &&& final(self).out_view() == stepped.1
                &&& final(self).am_view() == stepped.2
            },
            !old(self).spec_contains(key) ==> {
                let drained = two_q_restructure(
                    old(self).in_view(),
                    old(self).out_view(),
                    size,
                    old(self).in_max,
                );
                &&& final(self).in_view() == seq![
                    (Entry { key, size, visited: false, freq: 0 }),
                ] + drained.0
                &&& final(self).out_view() == drained.1
                &&& final(self).am_view() == old(self).am_view()
            },
            final(self).k_in == old(self).k_in,
            final(self).k_out == old(self).k_out,
            final(self).in_max == old(self).in_max,
            final(self).out_max == old(self).out_max,
    {
        if self.contains(key) {
            self.refresh_sizes(key, size);
            self.update(key);
            return;
        }
        self.restructure_to_fit(size);
        let ghost mid_in = self.in_view();
        let ghost mid_out = self.out_view();
        self.a1_in.push_entry(Entry { key, size, visited: false, freq: 0 });
        proof {
            assert forall|k2: u64|
                seq_has_key(self.in_view(), k2) implies (k2 == key || seq_has_key(
                mid_in,
                k2,
            )) by {
                lemma_has_key_push(Entry { key, size, visited: false, freq: 0 }, mid_in, k2);
            }
        }
    }

    /// Rewrites the size carried for `key` in whichever queue holds it.
    fn refresh_sizes(&mut self, key: u64, size: u32)
        requires
            old(self).wf(),
        ensures
            final(self).wf(),
            final(self).in_view() == sized_update(old(self).in_view(), key, size),
            final(self).out_view() == sized_update(old(self).out_view(), key, size),
            final(self).am_view() == sized_update(old(self).am_view(), key, size),
            final(self).k_in == old(self).k_in,
            final(self).k_out == old(self).k_out,
            final(self).in_max == old(self).in_max,
            final(self).out_max == old(self).out_max,
    {
        self.a1_in.update_size(key, size);
        self.a1_out.update_size(key, size);
        self.am.update_size(key, size);
        proof {
            lemma_sized_update_has(old(self).in_view(), key, size);
            lemma_sized_update_has(old(self).out_view(), key, size);
            lemma_sized_update_has(old(self).am_view(), key, size);
        }
    }

    /// Records an access of `key`: a ghost hit promotes it into the main
    /// queue, a main hit moves it to the front.
    pub fn update(&mut self, key: u64)
        requires
            old(self).wf(),
        ensures
            final(self).wf(),
            (final(self).in_view(), final(self).out_view(), final(self).am_view())
                == two_q_update(old(self).in_view(), old(self).out_view(), old(self).am_view(), key),
            final(self).k_in == old(self).k_in,
            final(self).k_out == old(self).k_out,
            final(self).in_max == old(self).in_max,
            final(self).out_max == old(self).out_max,
    {
        let ghost pre_out = self.out_view();
        let ghost pre_am = self.am_view();
        match self.a1_out.remove_key(key) {
            Some(entry) => {
                proof {
                    lemma_has_key_remove(pre_out, key_index(pre_out, key), key);
                    assert(seq_has_key(pre_out, key));
                    assert(!seq_has_key(self.in_view(), key));
                    assert(!seq_has_key(pre_am, key));
                }
                self.am.push_entry(entry);
                proof {
                    assert forall|k2: u64|
                        !(seq_has_key(self.out_view(), k2) && seq_has_key(
                            self.am_view(),
                            k2,
                        )) by {
                        if seq_has_key(self.out_view(), k2) && seq_has_key(self.am_view(), k2) {
                            lemma_has_key_remove(pre_out, key_index(pre_out, key), k2);
                            lemma_has_key_push(entry, pre_am, k2);
                            assert(seq_has_key(pre_out, k2));
                            assert(k2 != key);
                            assert(seq_has_key(pre_am, k2));
                        }
                    }
                    assert forall|k2: u64|
                        !(seq_has_key(self.in_view(), k2) && seq_has_key(
                            self.am_view(),
                            k2,
                        )) by {
                        if seq_has_key(self.in_view(), k2) && seq_has_key(self.am_view(), k2) {
                            lemma_has_key_push(entry, pre_am, k2);
                            if k2 == key {
                                assert(seq_has_key(pre_out, key));
                            } else {
                                assert(seq_has_key(pre_am, k2));
                            }
                        }
                    }
                    assert forall|k2: u64|
                        !(seq_has_key(self.in_view(), k2) && seq_has_key(
                            self.out_view(),
                            k2,
                        )) by {
                        if seq_has_key(self.in_view(), k2) && seq_has_key(self.out_view(), k2) {
                            lemma_has_key_remove(pre_out, key_index(pre_out, key), k2);
                            assert(seq_has_key(pre_out, k2));
                        }
                    }
                }
            },
            None => {
                self.am.stack.move_front(key);
                proof {
                    if seq_has_key(pre_am, key) {
                        assert forall|k2: u64|
                            seq_has_key(self.am_view(), k2) implies seq_has_key(pre_am, k2) by {
                            lemma_has_key_remove(pre_am, key_index(pre_am, key), k2);
                            lemma_has_key_push(
                                entry_of(pre_am, key),
                                pre_am.remove(key_index(pre_am, key)),
                                k2,
                            );
                        }
                        assert forall|k2: u64|
                            !(seq_has_key(self.in_view(), k2) && seq_has_key(
                                self.am_view(),
                                k2,
                            )) by {
                            if seq_has_key(self.am_view(), k2) {
                                lemma_has_key_remove(pre_am, key_index(pre_am, key), k2);
                                lemma_has_key_push(
                                    entry_of(pre_am, key),
                                    pre_am.remove(key_index(pre_am, key)),
                                    k2,
                                );
                                assert(seq_has_key(pre_am, k2));
                            }
                        }
                        assert forall|k2: u64|
                            !(seq_has_key(self.out_view(), k2) && seq_has_key(
                                self.am_view(),
                                k2,
                            )) by {
                            if seq_has_key(self.am_view(), k2) {
                                lemma_has_key_remove(pre_am, key_index(pre_am, key), k2);
                                lemma_has_key_push(
                                    entry_of(pre_am, key),
                                    pre_am.remove(key_index(pre_am, key)),
                                    k2,
                                );
                                assert(seq_has_key(pre_am, k2));
                            }
                        }
                        crate::keylist::lemma_size_sum_remove(pre_am, key_index(pre_am, key));
                        crate::keylist::lemma_size_sum_push(
                            entry_of(pre_am, key),
                            pre_am.remove(key_index(pre_am, key)),
                        );
                    }
                }
            },
        }
    }

    /// Forgets `key`.
    pub fn remove(&mut self, key: u64)
        requires
            old(self).wf(),
        ensures
            final(self).wf(),
            final(self).in_view() == crate::stack::lru_stack::stack_remove(old(self).in_view(), key),
            final(self).out_view() == crate::stack::lru_stack::stack_remove(
                old(self).out_view(),
                key,
            ),
            final(self).am_view() == crate::stack::lru_stack::stack_remove(old(self).am_view(), key),
            final(self).k_in == old(self).k_in,
            final(self).k_out == old(self).k_out,
            final(self).in_max == old(self).in_max,
            final(self).out_max == old(self).out_max,
    {
        let ghost pre_in = self.in_view();
        let ghost pre_out = self.out_view();
        let ghost pre_am = self.am_view();
        let _ = self.a1_in.remove_key(key);
        let _ = self.a1_out.remove_key(key);
        let _ = self.am.remove_key(key);
        proof {
            lemma_remove_keeps_disjoint(pre_in, self.in_view(), key);
            lemma_remove_keeps_disjoint(pre_out, self.out_view(), key);
            lemma_remove_keeps_disjoint(pre_am, self.am_view(), key);
        }
    }

    /// Resizes the admission and ghost queues to their ratios of
    /// `max_size`.
    pub fn resize(&mut self, max_size: u64)
        requires
            old(self).wf(),
        ensures
            final(self).wf(),
            *final(self) == (TwoQStack {
                in_max: ratio_of(max_size, old(self).k_in),
                out_max: ratio_of(max_size, old(self).k_out),
                ..*old(self)
            }),
    {
        self.in_max = apply_ratio(max_size, self.k_in);
        self.out_max = apply_ratio(max_size, self.k_out);
    }

    /// Forgets every key.
    pub fn clear(&mut self)
        requires
            old(self).wf(),
        ensures
            final(self).wf(),
            final(self).in_view() == Seq::<Entry>::empty(),
            final(self).out_view() == Seq::<Entry>::empty(),
            final(self).am_view() == Seq::<Entry>::empty(),
            final(self).k_in == old(self).k_in,
            final(self).k_out == old(self).k_out,
            final(self).in_max == old(self).in_max,
            final(self).out_max == old(self).out_max,
    {
        self.a1_in.clear();
        self.a1_out.clear();
        self.am.clear();
    }

    /// Takes the back of the ghost queue, else of the admission queue,
    /// else of the main queue.
    pub fn evict_one(&mut self) -> (r: Option<u64>)
        requires
            old(self).wf(),
        ensures
            final(self).wf(),
            old(self).out_view().len() > 0 ==> r == Some(old(self).out_view().last().key) && final(self).out_view() == old(self).out_view().drop_last() && final(self).in_view() == old(self).in_view() && final(self).am_view() == old(self).am_view(),
            old(self).out_view().len() == 0 && old(self).in_view().len() > 0 ==> r == Some(
                old(self).in_view().last().key,
            ) && final(self).in_view() == old(self).in_view().drop_last() && final(self).out_view()
                == old(self).out_view() && final(self).am_view() == old(self).am_view(),
            old(self).out_view().len() == 0 && old(self).in_view().len() == 0 && old(self).am_view().len() > 0 ==> r == Some(old(self).am_view().last().key) && final(self).am_view() == old(self).am_view().drop_last() && final(self).in_view() == old(self).in_view() && final(self).out_view() == old(self).out_view(),
            old(self).out_view().len() == 0 && old(self).in_view().len() == 0 && old(self).am_view().len() == 0 ==> r is None && *final(self) == *old(self),
            final(self).k_in == old(self).k_in,
            final(self).k_out == old(self).k_out,
            final(self).in_max == old(self).in_max,
            final(self).out_max == old(self).out_max,
    {
        let ghost pre_in = self.in_view();
        let ghost pre_out = self.out_view();
        let ghost pre_am = self.am_view();
        if let Some(entry) = self.a1_out.pop_back() {
            proof {
                assert forall|k2: u64|
                    seq_has_key(self.out_view(), k2) implies seq_has_key(pre_out, k2) by {
                    assert(self.out_view() =~= pre_out.remove(pre_out.len() - 1));
                    lemma_has_key_remove(pre_out, pre_out.len() - 1, k2);
                }
            }
            return Some(entry.key);
        }
        if let Some(entry) = self.a1_in.pop_back() {
            proof {
                assert forall|k2: u64|
                    seq_has_key(self.in_view(), k2) implies seq_has_key(pre_in, k2) by {
                    assert(self.in_view() =~= pre_in.remove(pre_in.len() - 1));
                    lemma_has_key_remove(pre_in, pre_in.len() - 1, k2);
                }
            }
            return Some(entry.key);
        }
        match self.am.pop_back() {
            Some(entry) => {
                proof {
                    assert forall|k2: u64|
                        seq_has_key(self.am_view(), k2) implies seq_has_key(pre_am, k2) by {
                        assert(self.am_view() =~= pre_am.remove(pre_am.len() - 1));
                        lemma_has_key_remove(pre_am, pre_am.len() - 1, k2);
                    }
                }
                Some(entry.key)
            },
            None => None,
        }
    }

    /// Drains the admission queue into the ghost queue until `size` more
    /// bytes fit it.
    fn restructure_to_fit(&mut self, size: u32)
        requires
            old(self).wf(),
        ensures
            final(self).wf(),
            (final(self).in_view(), final(self).out_view()) == two_q_restructure(
                old(self).in_view(),
                old(self).out_view(),
                size,
                old(self).in_max,
            ),
            forall|k2: u64|
                #![trigger seq_has_key(final(self).in_view(), k2)]
                seq_has_key(final(self).in_view(), k2) ==> seq_has_key(old(self).in_view(), k2),
            forall|k2: u64|
                #![trigger seq_has_key(final(self).out_view(), k2)]
                seq_has_key(final(self).out_view(), k2) ==> seq_has_key(old(self).in_view(), k2)
                    || seq_has_key(old(self).out_view(), k2),
            final(self).am_view() == old(self).am_view(),
            final(self).k_in == old(self).k_in,
            final(self).k_out == old(self).k_out,
            final(self).in_max == old(self).in_max,
            final(self).out_max == old(self).out_max,
    {
        loop
            invariant
                self.wf(),
                self.am_view() == old(self).am_view(),
                self.k_in == old(self).k_in,
                self.k_out == old(self).k_out,
                self.in_max == old(self).in_max,
                self.out_max == old(self).out_max,
                two_q_restructure(self.in_view(), self.out_view(), size, self.in_max)
                    == two_q_restructure(
                    old(self).in_view(),
                    old(self).out_view(),
                    size,
                    old(self).in_max,
                ),
                forall|k2: u64|
                    #![trigger seq_has_key(self.in_view(), k2)]
                    seq_has_key(self.in_view(), k2) ==> seq_has_key(old(self).in_view(), k2),
                forall|k2: u64|
                    #![trigger seq_has_key(self.out_view(), k2)]
                    seq_has_key(self.out_view(), k2) ==> seq_has_key(old(self).in_view(), k2)
                        || seq_has_key(old(self).out_view(), k2),
            decreases self.in_view().len(),
        {
            let ghost pre_in = self.in_view();
            let ghost pre_out = self.out_view();
            let n = self.a1_in.len();
            proof {
                crate::stack::sized_queue::lemma_size_sum_fits(self.in_view(), n);
            }
            let used = self.a1_in.used();
            if used + (size as u128) <= self.in_max as u128 {
                return;
            }
            match self.a1_in.pop_back() {
                None => {
                    return;
                },
                Some(entry) => {
                    proof {
                        assert(pre_in.last() == entry);
                        assert(!seq_has_key(self.out_view(), entry.key)) by {
                            assert(pre_in[pre_in.len() - 1].key == entry.key);
                            assert(seq_has_key(pre_in, entry.key));
                        }
                    }
                    self.a1_out.push_entry(entry);
                    proof {
                        assert(pre_in[pre_in.len() - 1].key == entry.key);
                        assert(seq_has_key(pre_in, entry.key));
                        assert forall|k2: u64|
                            seq_has_key(self.in_view(), k2) implies seq_has_key(
                            old(self).in_view(),
                            k2,
                        ) by {
                            assert(self.in_view() =~= pre_in.remove(pre_in.len() - 1));
                            lemma_has_key_remove(pre_in, pre_in.len() - 1, k2);
                            assert(seq_has_key(pre_in, k2));
                        }
                        assert forall|k2: u64|
                            seq_has_key(self.out_view(), k2) implies (seq_has_key(
                            old(self).in_view(),
                            k2,
                        ) || seq_has_key(old(self).out_view(), k2)) by {
                            lemma_has_key_push(entry, pre_out, k2);
                            if k2 == entry.key {
                                assert(seq_has_key(pre_in, k2));
                            } else {
                                assert(seq_has_key(pre_out, k2));
                            }
                        }
                        assert forall|k2: u64|
                            !(seq_has_key(self.in_view(), k2) && seq_has_key(
                                self.out_view(),
                                k2,
                            )) by {
                            if seq_has_key(self.in_view(), k2) && seq_has_key(
                                self.out_view(),
                                k2,
                            ) {
                                assert(self.in_view() =~= pre_in.remove(pre_in.len() - 1));
                                lemma_has_key_remove(pre_in, pre_in.len() - 1, k2);
                                lemma_has_key_push(entry, pre_out, k2);
                                assert(seq_has_key(pre_in, k2));
                                assert(k2 != entry.key);
                                assert(seq_has_key(pre_out, k2));
                            }
                        }
                    }
                },
            }
        }
    }
}

/// `part` millionths of `size`, rounded down.
pub open spec fn ratio_of(size: u64, part: u32) -> u64 {
    ((size * part) / (RATIO_SCALE as int)) as u64
}

/// Computes `part` millionths of `size`, rounded down.
pub fn apply_ratio(size: u64, part: u32) -> (r: u64)
    requires
        part <= RATIO_SCALE,
    ensures
        r == ratio_of(size, part),
{
    proof {
        assert((size as int) * (part as int) <= (u64::MAX as int) * 1_000_000) by (nonlinear_arith)
            requires
                size <= u64::MAX,
                part <= 1_000_000,
        ;
    }
    let wide = (size as u128) * (part as u128) / (RATIO_SCALE as u128);
    proof {
        assert(wide <= u64::MAX) by (nonlinear_arith)
            requires
                wide == (size as int) * (part as int) / 1_000_000,
                size <= u64::MAX,
                part <= 1_000_000,
        ;
    }
    wide as u64
}

/// `x` truncated to a `usize`, saturating at the largest value.
pub open spec fn sat_usize(x: int) -> usize {
    if x > usize::MAX {
        usize::MAX
    } else if x < 0 {
        0
    } else {
        x as usize
    }
}

/// Rewriting a size keeps membership as it stands.
pub proof fn lemma_sized_update_has(v: Seq<Entry>, key: u64, size: u32)
    ensures
        forall|k2: u64|
            #![trigger seq_has_key(sized_update(v, key, size), k2)]
            seq_has_key(sized_update(v, key, size), k2) == seq_has_key(v, k2),
{
    if seq_has_key(v, key) {
        assert forall|k2: u64|
            seq_has_key(sized_update(v, key, size), k2) == seq_has_key(v, k2) by {
            lemma_has_key_update(v, key_index(v, key), Entry { size, ..entry_of(v, key) }, k2);
        }
    }
}

/// A removal can only lose keys.
pub proof fn lemma_remove_keeps_disjoint(pre: Seq<Entry>, post: Seq<Entry>, key: u64)
    requires
        crate::keylist::seq_keys_unique(pre),
        post == crate::stack::lru_stack::stack_remove(pre, key),
    ensures
        forall|k2: u64|
            #![trigger seq_has_key(post, k2)]
            seq_has_key(post, k2) ==> seq_has_key(pre, k2),
{
    if seq_has_key(pre, key) {
        assert forall|k2: u64| seq_has_key(post, k2) implies seq_has_key(pre, k2) by {
            lemma_has_key_remove(pre, key_index(pre, key), k2);
        }
    }
}

} // verus!
