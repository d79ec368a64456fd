//! The adaptive-replacement eviction stack: recency queue `T1`, frequency
//! queue `T2`, their ghost queues `B1` and `B2`, and an adaptive split `p`
//! that moves toward whichever ghost queue sees hits.
use vstd::prelude::*;

use crate::keylist::{
    Entry, entry_of, key_index, lemma_has_key_push, lemma_has_key_remove, seq_has_key,
};
use crate::policy::PaperPolicy;
use crate::stack::sized_queue::{SizedQueue, queues_disjoint};
use crate::stack::two_q_stack::sized_update;

verus! {

/// The mathematical shape of an adaptive-replacement stack.
pub struct ArcModel {
    pub t1: Seq<Entry>,
    pub t2: Seq<Entry>,
    pub b1: Seq<Entry>,
    pub b2: Seq<Entry>,
    pub p: u64,
    pub max_size: u64,
}

impl ArcModel {
    /// Whether a live queue holds `key`.
    pub open spec fn has_live(self, key: u64) -> bool {
        seq_has_key(self.t1, key) || seq_has_key(self.t2, key)
    }
}

/// The step the split takes on a ghost hit: one where the hit ghost queue
/// holds at least as much as the other, else the ratio of the other's
/// bytes to its own, with an empty hit queue standing for the whole cache.
pub open spec fn arc_delta(hit_used: int, other_used: int, max_size: u64) -> int {
    if hit_used >= other_used {
        1
    } else if hit_used == 0 {
        max_size as int
    } else {
        other_used / hit_used
    }
}

/// The split raised by `delta`, capped at the cache size.
pub open spec fn p_up(p: u64, delta: int, max_size: u64) -> u64 {
    if p + delta < max_size {
        (p + delta) as u64
    } else {
        max_size
    }
}

/// The split lowered by `delta`, stopping at zero.
pub open spec fn p_down(p: u64, delta: int) -> u64 {
    if p - delta > 0 {
        (p - delta) as u64
    } else {
        0
    }
}

/// The model after an access of `key`: a `T1` hit moves the key to the
/// front of `T2`, a `T2` hit moves it to `T2`'s front, anything else
/// changes nothing.
pub open spec fn arc_update(m: ArcModel, key: u64) -> ArcModel {
    if seq_has_key(m.t1, key) {
        ArcModel {
            t1: m.t1.remove(key_index(m.t1, key)),
            t2: seq![entry_of(m.t1, key)] + m.t2,
            ..m
        }
    } else if seq_has_key(m.t2, key) {
        ArcModel {
            t2: seq![entry_of(m.t2, key)] + m.t2.remove(key_index(m.t2, key)),
            ..m
        }
    } else {
        m
    }
}

/// The model after an insert of `key` with `size` bytes: a live key has
/// its size refreshed and counts as an access; a `B1` hit raises the
/// split and revives the key at the front of `T2`; a `B2` hit lowers the
/// split and revives the key likewise; a cold key enters `T1`.
pub open spec fn arc_insert(m: ArcModel, key: u64, size: u32) -> ArcModel {
    if m.has_live(key) {
        let refreshed = ArcModel {
            t1: sized_update(m.t1, key, size),
            t2: sized_update(m.t2, key, size),
            ..m
        };
        arc_update(refreshed, key)
    } else if seq_has_key(m.b1, key) {
        let revived = Entry { size, ..entry_of(m.b1, key) };
        let shrunk = m.b1.remove(key_index(m.b1, key));
        let delta = arc_delta(
            crate::keylist::size_sum(shrunk) as int,
            crate::keylist::size_sum(m.b2) as int,
            m.max_size,
        );
        ArcModel {
            t2: seq![revived] + m.t2,
            b1: shrunk,
            p: p_up(m.p, delta, m.max_size),
            ..m
        }
    } else if seq_has_key(m.b2, key) {
        let revived = Entry { size, ..entry_of(m.b2, key) };
        let shrunk = m.b2.remove(key_index(m.b2, key));
        let delta = arc_delta(
            crate::keylist::size_sum(shrunk) as int,
            crate::keylist::size_sum(m.b1) as int,
            m.max_size,
        );
        ArcModel {
            t2: seq![revived] + m.t2,
            b2: shrunk,
            p: p_down(m.p, delta),
            ..m
        }
    } else {
        ArcModel { t1: seq![(Entry { key, size, visited: false, freq: 0 })] + m.t1, ..m }
    }
}

/// The model and surrendered key of one replacement: the back of `T1`
/// retires into `B1` where `T1` is loaded past the split or `T2` is
/// empty, else the back of `T2` retires into `B2`.
pub open spec fn arc_replace(m: ArcModel) -> (ArcModel, Option<u64>) {
    if (m.t1.len() > 0 && crate::keylist::size_sum(m.t1) >= m.p) || m.t2.len() == 0 {
        if m.t1.len() == 0 {
            (m, None)
        } else {
            let e = m.t1.last();
            (ArcModel { t1: m.t1.drop_last(), b1: seq![e] + m.b1, ..m }, Some(e.key))
        }
    } else {
        if m.t2.len() == 0 {
            (m, None)
        } else {
            let e = m.t2.last();
            (ArcModel { t2: m.t2.drop_last(), b2: seq![e] + m.b2, ..m }, Some(e.key))
        }
    }
}

/// The model and evicted key of one eviction, per the classical
/// directory-size cases.
pub open spec fn arc_evict(m: ArcModel) -> (ArcModel, Option<u64>) {
    let t1_used = crate::keylist::size_sum(m.t1);
    let b1_used = crate::keylist::size_sum(m.b1);
    let total = t1_used + crate::keylist::size_sum(m.t2) + b1_used + crate::keylist::size_sum(m.b2);
    if t1_used + b1_used >= m.max_size {
        if t1_used < m.max_size {
            let trimmed = if m.b1.len() > 0 {
                ArcModel { b1: m.b1.drop_last(), ..m }
            } else {
                m
            };
            arc_replace(trimmed)
        } else {
            if m.t1.len() == 0 {
                (m, None)
            } else {
                (ArcModel { t1: m.t1.drop_last(), ..m }, Some(m.t1.last().key))
            }
        }
    } else {
        let trimmed = if total >= 2 * m.max_size && m.b2.len() > 0 {
            ArcModel { b2: m.b2.drop_last(), ..m }
        } else {
            m
        };
        arc_replace(trimmed)
    }
}

/// The adaptive-replacement eviction stack.
pub struct ArcStack {
    pub max_size: u64,
    pub p: u64,
    pub t1: SizedQueue,
    pub t2: SizedQueue,
    pub b1: SizedQueue,
    pub b2: SizedQueue,
}

impl ArcStack {
    /// The mathematical shape of the stack.
    pub open spec fn model(self) -> ArcModel {
        ArcModel {
            t1: self.t1.view(),
            t2: self.t2.view(),
            b1: self.b1.view(),
            b2: self.b2.view(),
            p: self.p,
            max_size: self.max_size,
        }
    }

    pub open spec fn wf(self) -> bool {
        &&& self.t1.wf()
        &&& self.t2.wf()
        &&& self.b1.wf()
        &&& self.b2.wf()
        &&& queues_disjoint(self.t1.view(), self.t2.view())
        &&& queues_disjoint(self.t1.view(), self.b1.view())
        &&& queues_disjoint(self.t1.view(), self.b2.view())
        &&& queues_disjoint(self.t2.view(), self.b1.view())
        &&& queues_disjoint(self.t2.view(), self.b2.view())
        &&& queues_disjoint(self.b1.view(), self.b2.view())
    }

    /// Builds an empty stack for a cache of `max_size` bytes.
    pub fn new(max_size: u64) -> (r: ArcStack)
        ensures
            r.wf(),
            r.model() == (ArcModel {
                t1: Seq::<Entry>::empty(),
                t2: Seq::<Entry>::empty(),
                b1: Seq::<Entry>::empty(),
                b2: Seq::<Entry>::empty(),
                p: 0,
                max_size,
            }),
    {
        ArcStack {
            max_size,
            p: 0,
            t1: SizedQueue::new(),
            t2: SizedQueue::new(),
            b1: SizedQueue::new(),
            b2: SizedQueue::new(),
        }
    }

    /// Returns `true` iff this stack orders under `policy`.
    pub fn is_policy(&self, policy: &PaperPolicy) -> (r: bool)
        ensures
            r == (*policy is Arc),
    {
        matches!(policy, PaperPolicy::Arc)
    }

    /// The number of live keys held.
    pub fn len(&self) -> (r: usize)
        ensures
            r == crate::stack::two_q_stack::sat_usize(
                self.t1.view().len() + self.t2.view().len() as int,
            ),
    {
        self.t1.len().saturating_add(self.t2.len())
    }

    /// Returns `true` iff a live queue holds `key`.
    pub fn contains(&self, key: u64) -> (r: bool)
        requires
            self.wf(),
        ensures
            r == self.model().has_live(key),
    {
        self.t1.contains(key) || self.t2.contains(key)
    }

    /// Admits `key` of `size` bytes per the adaptive-replacement cases.
    pub fn insert(&mut self, key: u64, size: u32)
        requires
            old(self).wf(),
        ensures
            final(self).wf(),
            final(self).model() == arc_insert(old(self).model(), key, size),
    {
        if self.contains(key) {
            self.t1.update_size(key, size);
            self.t2.update_size(key, size);
            proof {
                crate::stack::two_q_stack::lemma_sized_update_has(old(self).t1.view(), key, size);
                crate::stack::two_q_stack::lemma_sized_update_has(old(self).t2.view(), key, size);
            }
            self.update(key);
            return;
        }
        let ghost pre = self.model();
        match self.b1.remove_key(key) {
            Some(entry) => {
                let revived = Entry { size, ..entry };
                let nb1 = self.b1.len();
                let nb2 = self.b2.len();
                proof {
                    crate::stack::sized_queue::lemma_size_sum_fits(self.b1.view(), nb1);
                    crate::stack::sized_queue::lemma_size_sum_fits(self.b2.view(), nb2);
                }
                let b1_used = self.b1.used();
                let b2_used = self.b2.used();
                let delta: u128 = if b1_used >= b2_used {
                    1
                } else if b1_used == 0 {
                    self.max_size as u128
                } else {
                    b2_used / b1_used
                };
                let widened = (self.p as u128) + delta;
                self.p = if widened < self.max_size as u128 {
                    widened as u64
                } else {
                    self.max_size
                };
                proof {
                    lemma_has_key_remove(pre.b1, key_index(pre.b1, key), key);
                    assert(!seq_has_key(self.t2.view(), key));
                }
                self.t2.push_entry(revived);
                proof {
                    lemma_arc_revive_disjoint(pre.b1, self.b1.view(), pre.t2, self.t2.view(), pre.t1, pre.b2, key, revived);
                }
            },
            None => {
                match self.b2.remove_key(key) {
                    Some(entry) => {
                        let revived = Entry { size, ..entry };
                        let nb1 = self.b1.len();
                        let nb2 = self.b2.len();
                        proof {
                            crate::stack::sized_queue::lemma_size_sum_fits(self.b1.view(), nb1);
                            crate::stack::sized_queue::lemma_size_sum_fits(self.b2.view(), nb2);
                        }
                        let b1_used = self.b1.used();
                        let b2_used = self.b2.used();
                        let delta: u128 = if b2_used >= b1_used {
                            1
                        } else if b2_used == 0 {
                            self.max_size as u128
                        } else {
                            b1_used / b2_used
                        };
                        let lowered = self.p as u128;
                        self.p = if lowered > delta {
                            (lowered - delta) as u64
                        } else {
                            0
                        };
                        proof {
                            lemma_has_key_remove(pre.b2, key_index(pre.b2, key), key);
                            assert(!seq_has_key(self.t2.view(), key));
                        }
                        self.t2.push_entry(revived);
                        proof {
                            lemma_arc_revive_disjoint(pre.b2, self.b2.view(), pre.t2, self.t2.view(), pre.t1, pre.b1, key, revived);
                        }
                    },
                    None => {
                        let entry = Entry { key, size, visited: false, freq: 0 };
                        self.t1.push_entry(entry);
                        proof {
                            assert forall|k2: u64|
                                seq_has_key(self.t1.view(), k2) implies (k2 == key || seq_has_key(
                                pre.t1,
                                k2,
                            )) by {
                                lemma_has_key_push(entry, pre.t1, k2);
                            }
                        }
                    },
                }
            },
        }
    }

    /// Records an access of `key`, promoting it to the front of `T2`.
    pub fn update(&mut self, key: u64)
        requires
            old(self).wf(),
        ensures
            final(self).wf(),
            final(self).model() == arc_update(old(self).model(), key),
    {
        let ghost pre = self.model();
        match self.t1.remove_key(key) {
            Some(entry) => {
                proof {
                    lemma_has_key_remove(pre.t1, key_index(pre.t1, key), key);
                    assert(!seq_has_key(self.t2.view(), key));
                }
                self.t2.push_entry(entry);
                proof {
                    lemma_arc_revive_disjoint(pre.t1, self.t1.view(), pre.t2, self.t2.view(), pre.b1, pre.b2, key, entry);
                }
            },
            None => {
                let ghost pre_t2 = self.t2.view();
                match self.t2.remove_key(key) {
                    Some(entry) => {
                        proof {
                            lemma_has_key_remove(pre_t2, key_index(pre_t2, key), key);
                        }
                        self.t2.push_entry(entry);
                        proof {
                            assert forall|k2: u64|
                                seq_has_key(self.t2.view(), k2) implies seq_has_key(
                                pre_t2,
                                k2,
                            ) by {
                                lemma_has_key_push(
                                    entry,
                                    pre_t2.remove(key_index(pre_t2, key)),
                                    k2,
                                );
                                if k2 != key {
                                    lemma_has_key_remove(pre_t2, key_index(pre_t2, key), k2);
                                }
                            }
                        }
                    },
                    None => (),
                }
            },
        }
    }

    /// Forgets `key` from every queue.
    pub fn remove(&mut self, key: u64)
        requires
            old(self).wf(),
        ensures
            final(self).wf(),
            final(self).model() == (ArcModel {
                t1: crate::stack::lru_stack::stack_remove(old(self).model().t1, key),
                t2: crate::stack::lru_stack::stack_remove(old(self).model().t2, key),
                b1: crate::stack::lru_stack::stack_remove(old(self).model().b1, key),
                b2: crate::stack::lru_stack::stack_remove(old(self).model().b2, key),
                ..old(self).model()
            }),
    {
        let ghost pre = self.model();
        let _ = self.t1.remove_key(key);
        let _ = self.t2.remove_key(key);
        let _ = self.b1.remove_key(key);
        let _ = self.b2.remove_key(key);
        proof {
            crate::stack::two_q_stack::lemma_remove_keeps_disjoint(pre.t1, self.t1.view(), key);
            crate::stack::two_q_stack::lemma_remove_keeps_disjoint(pre.t2, self.t2.view(), key);
            crate::stack::two_q_stack::lemma_remove_keeps_disjoint(pre.b1, self.b1.view(), key);
            crate::stack::two_q_stack::lemma_remove_keeps_disjoint(pre.b2, self.b2.view(), key);
        }
    }

    /// Remembers the cache size the split is bounded by.
    pub fn resize(&mut self, max_size: u64)
        requires
            old(self).wf(),
        ensures
            final(self).wf(),
            *final(self) == (ArcStack { max_size, ..*old(self) }),
    {
        self.max_size = max_size;
    }

    /// Forgets every key.
    pub fn clear(&mut self)
        requires
            old(self).wf(),
        ensures
            final(self).wf(),
            final(self).model().t1 == Seq::<Entry>::empty(),
            final(self).model().t2 == Seq::<Entry>::empty(),
            final(self).model().b1 == Seq::<Entry>::empty(),
            final(self).model().b2 == Seq::<Entry>::empty(),
    {
        self.t1.clear();
        self.t2.clear();
        self.b1.clear();
        self.b2.clear();
    }

    /// Takes one key per the adaptive-replacement eviction cases.
    pub fn evict_one(&mut self) -> (r: Option<u64>)
        requires
            old(self).wf(),
        ensures
            final(self).wf(),
            (final(self).model(), r) == arc_evict(old(self).model()),
    {
        let ghost pre = self.model();
        let nt1 = self.t1.len();
        let nt2 = self.t2.len();
        let nb1 = self.b1.len();
        let nb2 = self.b2.len();
        proof {
            crate::stack::sized_queue::lemma_size_sum_fits(self.t1.view(), nt1);
            crate::stack::sized_queue::lemma_size_sum_fits(self.t2.view(), nt2);
            crate::stack::sized_queue::lemma_size_sum_fits(self.b1.view(), nb1);
            crate::stack::sized_queue::lemma_size_sum_fits(self.b2.view(), nb2);
        }
        let t1_used = self.t1.used();
        let b1_used = self.b1.used();
        let total = t1_used + self.t2.used() + b1_used + self.b2.used();
        if t1_used + b1_used >= self.max_size as u128 {
            if t1_used < self.max_size as u128 {
                let ghost pre_b1 = self.b1.view();
                let _ = self.b1.pop_back();
                proof {
                    if pre_b1.len() > 0 {
                        assert forall|k2: u64|
                            seq_has_key(self.b1.view(), k2) implies seq_has_key(pre_b1, k2) by {
                            assert(self.b1.view() =~= pre_b1.remove(pre_b1.len() - 1));
                            lemma_has_key_remove(pre_b1, pre_b1.len() - 1, k2);
                        }
                    }
                }
                return self.replace();
            }
            let ghost pre_t1 = self.t1.view();
            match self.t1.pop_back() {
                Some(entry) => {
                    proof {
                        assert forall|k2: u64|
                            seq_has_key(self.t1.view(), k2) implies seq_has_key(pre_t1, k2) by {
                            assert(self.t1.view() =~= pre_t1.remove(pre_t1.len() - 1));
                            lemma_has_key_remove(pre_t1, pre_t1.len() - 1, k2);
                        }
                    }
                    return Some(entry.key);
                },
                None => {
                    return None;
                },
            }
        }
        if total >= 2 * (self.max_size as u128) {
            let ghost pre_b2 = self.b2.view();
            let _ = self.b2.pop_back();
            proof {
                if pre_b2.len() > 0 {
                    assert forall|k2: u64|
                        seq_has_key(self.b2.view(), k2) implies seq_has_key(pre_b2, k2) by {
                        assert(self.b2.view() =~= pre_b2.remove(pre_b2.len() - 1));
                        lemma_has_key_remove(pre_b2, pre_b2.len() - 1, k2);
                    }
                }
            }
        }
        self.replace()
    }

    /// Surrenders the back of `T1` into `B1` where `T1` is loaded past
    /// the split or `T2` is empty, else the back of `T2` into `B2`.
    fn replace(&mut self) -> (r: Option<u64>)
        requires
            old(self).wf(),
        ensures
            final(self).wf(),
            (final(self).model(), r) == arc_replace(old(self).model()),
    {
        let ghost pre = self.model();
        let t1_len = self.t1.len();
        let t1_used = self.t1.used();
        let t2_len = self.t2.len();
        if (t1_len > 0 && t1_used >= self.p as u128) || t2_len == 0 {
            match self.t1.pop_back() {
                Some(entry) => {
                    proof {
                        assert(pre.t1[pre.t1.len() - 1].key == entry.key);
                        assert(seq_has_key(pre.t1, entry.key));
                        assert(!seq_has_key(self.b1.view(), entry.key));
                    }
                    self.b1.push_entry(entry);
                    proof {
                        lemma_arc_retire_disjoint(pre.t1, self.t1.view(), pre.b1, self.b1.view(), pre.t2, pre.b2, entry);
                    }
                    Some(entry.key)
                },
                None => None,
            }
        } else {
            match self.t2.pop_back() {
                Some(entry) => {
                    proof {
                        assert(pre.t2[pre.t2.len() - 1].key == entry.key);
                        assert(seq_has_key(pre.t2, entry.key));
                        assert(!seq_has_key(self.b2.view(), entry.key));
                    }
                    self.b2.push_entry(entry);
                    proof {
                        lemma_arc_retire_disjoint(pre.t2, self.t2.view(), pre.b2, self.b2.view(), pre.t1, pre.b1, entry);
                    }
                    Some(entry.key)
                },
                None => None,
            }
        }
    }
}

/// Moving the entry for `key` out of `from` onto the front of `to` keeps
/// every pair of queues disjoint, for the two untouched queues `u` and
/// `v`.
proof fn lemma_arc_revive_disjoint(
    from_pre: Seq<Entry>,
    from_post: Seq<Entry>,
    to_pre: Seq<Entry>,
    to_post: Seq<Entry>,
    u: Seq<Entry>,
    v: Seq<Entry>,
    key: u64,
    moved: Entry,
)
    requires
        crate::keylist::seq_keys_unique(from_pre),
        seq_has_key(from_pre, key),
        moved.key == key,
        from_post == from_pre.remove(key_index(from_pre, key)),
        to_post == seq![moved] + to_pre,
        queues_disjoint(from_pre, to_pre),
        queues_disjoint(from_pre, u),
        queues_disjoint(from_pre, v),
        queues_disjoint(to_pre, u),
        queues_disjoint(to_pre, v),
    ensures
        queues_disjoint(from_post, to_post),
        queues_disjoint(from_post, u),
        queues_disjoint(from_post, v),
        queues_disjoint(to_post, u),
        queues_disjoint(to_post, v),
{
    assert forall|k2: u64| seq_has_key(from_post, k2) implies (seq_has_key(from_pre, k2) && k2
        != key) by {
        lemma_has_key_remove(from_pre, key_index(from_pre, key), k2);
    }
    assert forall|k2: u64| seq_has_key(to_post, k2) implies (k2 == key || seq_has_key(
        to_pre,
        k2,
    )) by {
        lemma_has_key_push(moved, to_pre, k2);
    }
    assert forall|k2: u64| !(seq_has_key(from_post, k2) && seq_has_key(to_post, k2)) by {
        if seq_has_key(from_post, k2) && seq_has_key(to_post, k2) {
            assert(seq_has_key(from_pre, k2) && k2 != key);
            assert(k2 == key || seq_has_key(to_pre, k2));
        }
    }
    assert forall|k2: u64| !(seq_has_key(to_post, k2) && seq_has_key(u, k2)) by {
        if seq_has_key(to_post, k2) && seq_has_key(u, k2) {
            if k2 == key {
                assert(seq_has_key(from_pre, key));
            } else {
                assert(seq_has_key(to_pre, k2));
            }
        }
    }
    assert forall|k2: u64| !(seq_has_key(to_post, k2) && seq_has_key(v, k2)) by {
        if seq_has_key(to_post, k2) && seq_has_key(v, k2) {
            if k2 == key {
                assert(seq_has_key(from_pre, key));
            } else {
                assert(seq_has_key(to_pre, k2));
            }
        }
    }
    assert forall|k2: u64| !(seq_has_key(from_post, k2) && seq_has_key(u, k2)) by {
        if seq_has_key(from_post, k2) {
            assert(seq_has_key(from_pre, k2));
        }
    }
    assert forall|k2: u64| !(seq_has_key(from_post, k2) && seq_has_key(v, k2)) by {
        if seq_has_key(from_post, k2) {
            assert(seq_has_key(from_pre, k2));
        }
    }
}

/// Retiring the back entry of `from` onto the front of `to` keeps every
/// pair of queues disjoint, for the two untouched queues `u` and `v`.
proof fn lemma_arc_retire_disjoint(
    from_pre: Seq<Entry>,
    from_post: Seq<Entry>,
    to_pre: Seq<Entry>,
    to_post: Seq<Entry>,
    u: Seq<Entry>,
    v: Seq<Entry>,
    moved: Entry,
)
    requires
        crate::keylist::seq_keys_unique(from_pre),
        from_pre.len() > 0,
        moved == from_pre.last(),
        from_post == from_pre.drop_last(),
        to_post == seq![moved] + to_pre,
        queues_disjoint(from_pre, to_pre),
        queues_disjoint(from_pre, u),
        queues_disjoint(from_pre, v),
        queues_disjoint(to_pre, u),
        queues_disjoint(to_pre, v),
    ensures
        queues_disjoint(from_post, to_post),
        queues_disjoint(from_post, u),
        queues_disjoint(from_post, v),
        queues_disjoint(to_post, u),
        queues_disjoint(to_post, v),
{
    assert(seq_has_key(from_pre, moved.key)) by {
        assert(from_pre[from_pre.len() - 1].key == moved.key);
    }
    assert(from_post =~= from_pre.remove(from_pre.len() - 1));
    crate::keylist::lemma_key_index_unique(from_pre, moved.key, from_pre.len() - 1);
    lemma_arc_revive_disjoint(
        from_pre,
        from_post,
        to_pre,
        to_post,
        u,
        v,
        moved.key,
        moved,
    );
}

} // verus!
