//! The eviction stacks, one per policy, behind a uniform interface.
pub mod arc_stack;
pub mod clock_stack;
pub mod fifo_stack;
pub mod lfu_stack;
pub mod lru_stack;
pub mod mru_stack;
pub mod s_three_fifo_stack;
pub mod sieve_stack;
pub mod sized_queue;
pub mod two_q_stack;

use vstd::prelude::*;

use crate::CacheSize;
use crate::keylist::{Entry, seq_has_key};
use crate::object::ObjectSize;
use crate::policy::{PaperPolicy, RATIO_SCALE};
use crate::stack::arc_stack::{ArcStack, arc_evict, arc_insert, arc_update};
use crate::stack::clock_stack::{ClockStack, clock_evict, clock_insert, clock_update};
use crate::stack::fifo_stack::{FifoStack, fifo_insert};
use crate::stack::lfu_stack::{
    LfuStack, lfu_evict, lfu_has_key, lfu_insert, lfu_remove, lfu_total, lfu_update,
};
use crate::stack::lru_stack::{LruStack, lru_insert, lru_update, stack_remove};
use crate::stack::mru_stack::MruStack;
use crate::stack::s_three_fifo_stack::{SThreeFifoStack, s3_evict, s3_touch};
use crate::stack::sieve_stack::{SieveStack, hand_before, sieve_evict};
use crate::stack::two_q_stack::{TwoQStack, sized_update, two_q_restructure, two_q_update};

verus! {

/// The eviction stack of the active policy, one variant per policy.
/// Every operation leaves its variant in place and steps the variant's
/// own model exactly as that policy orders.
pub enum PolicyStack {
    Lfu(LfuStack),
    Fifo(FifoStack),
    Clock(ClockStack),
    Sieve(SieveStack),
    Lru(LruStack),
    Mru(MruStack),
    TwoQ(TwoQStack),
    Arc(ArcStack),
    SThreeFifo(SThreeFifoStack),
}

impl PolicyStack {
    /// Every variant's own structural invariant.
    pub open spec fn wf(self) -> bool {
        match self {
            PolicyStack::Lfu(s) => s.wf(),
            PolicyStack::Fifo(s) => s.wf(),
            PolicyStack::Clock(s) => s.wf(),
            PolicyStack::Sieve(s) => s.wf(),
            PolicyStack::Lru(s) => s.wf(),
            PolicyStack::Mru(s) => s.wf(),
            PolicyStack::TwoQ(s) => s.wf(),
            PolicyStack::Arc(s) => s.wf(),
            PolicyStack::SThreeFifo(s) => s.wf(),
        }
    }

    /// Whether the stack holds `key` among the keys it would order an
    /// eviction over.
    pub open spec fn spec_contains(self, key: u64) -> bool {
        match self {
            PolicyStack::Lfu(s) => lfu_has_key(s.view(), key),
            PolicyStack::Fifo(s) => seq_has_key(s.view(), key),
            PolicyStack::Clock(s) => seq_has_key(s.view(), key),
            PolicyStack::Sieve(s) => seq_has_key(s.view(), key),
            PolicyStack::Lru(s) => seq_has_key(s.view(), key),
            PolicyStack::Mru(s) => seq_has_key(s.view(), key),
            PolicyStack::TwoQ(s) => s.spec_contains(key),
            PolicyStack::Arc(s) => s.model().has_live(key),
            PolicyStack::SThreeFifo(s) => s.spec_contains(key),
        }
    }

    /// The number of keys the stack holds.
    pub open spec fn spec_len(self) -> int {
        match self {
            PolicyStack::Lfu(s) => lfu_total(s.view()) as int,
            PolicyStack::Fifo(s) => s.view().len() as int,
            PolicyStack::Clock(s) => s.view().len() as int,
            PolicyStack::Sieve(s) => s.view().len() as int,
            PolicyStack::Lru(s) => s.view().len() as int,
            PolicyStack::Mru(s) => s.view().len() as int,
            PolicyStack::TwoQ(s) => s.in_view().len() + s.out_view().len() + s.am_view().len() as int,
            PolicyStack::Arc(s) => s.model().t1.len() + s.model().t2.len() as int,
            PolicyStack::SThreeFifo(s) => s.small_view().len() + s.main_view().len() as int,
        }
    }

    /// Whether the stack holds no key.
    pub open spec fn spec_is_empty(self) -> bool {
        match self {
            PolicyStack::Lfu(s) => s.view().len() == 0,
            PolicyStack::Fifo(s) => s.view().len() == 0,
            PolicyStack::Clock(s) => s.view().len() == 0,
            PolicyStack::Sieve(s) => s.view().len() == 0 && s.spec_hand() is None,
            PolicyStack::Lru(s) => s.view().len() == 0,
            PolicyStack::Mru(s) => s.view().len() == 0,
            PolicyStack::TwoQ(s) => s.in_view().len() == 0 && s.out_view().len() == 0
                && s.am_view().len() == 0,
            PolicyStack::Arc(s) => s.model().t1.len() == 0 && s.model().t2.len() == 0
                && s.model().b1.len() == 0 && s.model().b2.len() == 0,
            PolicyStack::SThreeFifo(s) => s.small_view().len() == 0 && s.main_view().len() == 0
                && s.ghost_view().len() == 0,
        }
    }

    /// The policy this stack orders under.
    pub open spec fn spec_policy_of(self) -> PaperPolicy {
        match self {
            PolicyStack::Lfu(_) => PaperPolicy::Lfu,
            PolicyStack::Fifo(_) => PaperPolicy::Fifo,
            PolicyStack::Clock(_) => PaperPolicy::Clock,
            PolicyStack::Sieve(_) => PaperPolicy::Sieve,
            PolicyStack::Lru(_) => PaperPolicy::Lru,
            PolicyStack::Mru(_) => PaperPolicy::Mru,
            PolicyStack::TwoQ(s) => PaperPolicy::TwoQ(s.k_in, s.k_out),
            PolicyStack::Arc(_) => PaperPolicy::Arc,
            PolicyStack::SThreeFifo(s) => PaperPolicy::SThreeFifo(s.ratio),
        }
    }

    /// How an insert of `key` with `size` bytes steps the stack: each
    /// variant's own insert transition.
    pub open spec fn insert_rel(pre: PolicyStack, post: PolicyStack, key: u64, size: u32) -> bool {
        match (pre, post) {
            (PolicyStack::Lfu(a), PolicyStack::Lfu(b)) => {
                &&& ((lfu_has_key(a.view(), key) || lfu_total(a.view()) < usize::MAX) ==> b.view()
                    == lfu_insert(a.view(), key))
                &&& (!(lfu_has_key(a.view(), key) || lfu_total(a.view()) < usize::MAX) ==> b.view()
                    == a.view())
            },
            (PolicyStack::Fifo(a), PolicyStack::Fifo(b)) => b.view() == fifo_insert(a.view(), key),
            (PolicyStack::Clock(a), PolicyStack::Clock(b)) => b.view() == clock_insert(
                a.view(),
                key,
            ),
            (PolicyStack::Sieve(a), PolicyStack::Sieve(b)) => b.view() == clock_insert(
                a.view(),
                key,
            ) && b.spec_hand() == a.spec_hand(),
            (PolicyStack::Lru(a), PolicyStack::Lru(b)) => b.view() == lru_insert(a.view(), key),
            (PolicyStack::Mru(a), PolicyStack::Mru(b)) => b.view() == lru_insert(a.view(), key),
            (PolicyStack::TwoQ(a), PolicyStack::TwoQ(b)) => {
                &&& (a.spec_contains(key) ==> {
                    let stepped = two_q_update(
                        sized_update(a.in_view(), key, size),
                        sized_update(a.out_view(), key, size),
                        sized_update(a.am_view(), key, size),
                        key,
                    );
                    (b.in_view(), b.out_view(), b.am_view()) == stepped
                })
                &&& (!a.spec_contains(key) ==> {
                    let drained = two_q_restructure(a.in_view(), a.out_view(), size, a.in_max);
                    &&& b.in_view() == seq![(Entry { key, size, visited: false, freq: 0 })]
                        + drained.0
                    &&& b.out_view() == drained.1
                    &&& b.am_view() == a.am_view()
                })
                &&& b.k_in == a.k_in
                &&& b.k_out == a.k_out
                &&& b.in_max == a.in_max
                &&& b.out_max == a.out_max
            },
            (PolicyStack::Arc(a), PolicyStack::Arc(b)) => b.model() == arc_insert(
                a.model(),
                key,
                size,
            ),
            (PolicyStack::SThreeFifo(a), PolicyStack::SThreeFifo(b)) => {
                &&& (a.spec_contains(key) ==> b.small_view() == s3_touch(
                    sized_update(a.small_view(), key, size),
                    key,
                ) && b.main_view() == s3_touch(sized_update(a.main_view(), key, size), key)
                    && b.ghost_view() == a.ghost_view())
                &&& (!a.spec_contains(key) && seq_has_key(a.ghost_view(), key) ==> b.main_view()
                    == seq![(Entry { key, size, visited: false, freq: 0 })] + a.main_view()
                    && b.small_view() == a.small_view() && b.ghost_view() == a.ghost_view())
                &&& (!a.spec_contains(key) && !seq_has_key(a.ghost_view(), key) ==> b.small_view()
                    == seq![(Entry { key, size, visited: false, freq: 0 })] + a.small_view()
                    && b.main_view() == a.main_view() && b.ghost_view() == a.ghost_view())
                &&& b.ratio == a.ratio
                &&& b.small_max == a.small_max
                &&& b.main_max == a.main_max
            },
            _ => false,
        }
    }

    /// How an access of `key` steps the stack: each variant's own update
    /// transition.
    pub open spec fn update_rel(pre: PolicyStack, post: PolicyStack, key: u64) -> bool {
        match (pre, post) {
            (PolicyStack::Lfu(a), PolicyStack::Lfu(b)) => b.view() == lfu_update(a.view(), key),
            (PolicyStack::Fifo(a), PolicyStack::Fifo(b)) => b == a,
            (PolicyStack::Clock(a), PolicyStack::Clock(b)) => b.view() == clock_update(
                a.view(),
                key,
            ),
            (PolicyStack::Sieve(a), PolicyStack::Sieve(b)) => b.view() == clock_update(
                a.view(),
                key,
            ) && b.spec_hand() == a.spec_hand(),
            (PolicyStack::Lru(a), PolicyStack::Lru(b)) => b.view() == lru_update(a.view(), key),
            (PolicyStack::Mru(a), PolicyStack::Mru(b)) => b.view() == lru_update(a.view(), key),
            (PolicyStack::TwoQ(a), PolicyStack::TwoQ(b)) => (b.in_view(), b.out_view(), b.am_view())
                == two_q_update(a.in_view(), a.out_view(), a.am_view(), key) && b.k_in == a.k_in
                && b.k_out == a.k_out && b.in_max == a.in_max && b.out_max == a.out_max,
            (PolicyStack::Arc(a), PolicyStack::Arc(b)) => b.model() == arc_update(a.model(), key),
            (PolicyStack::SThreeFifo(a), PolicyStack::SThreeFifo(b)) => b.small_view() == s3_touch(
                a.small_view(),
                key,
            ) && b.main_view() == s3_touch(a.main_view(), key) && b.ghost_view() == a.ghost_view()
                && b.ratio == a.ratio && b.small_max == a.small_max && b.main_max == a.main_max,
            _ => false,
        }
    }

    /// How a removal of `key` steps the stack.
    pub open spec fn remove_rel(pre: PolicyStack, post: PolicyStack, key: u64) -> bool {
        match (pre, post) {
            (PolicyStack::Lfu(a), PolicyStack::Lfu(b)) => b.view() == lfu_remove(a.view(), key),
            (PolicyStack::Fifo(a), PolicyStack::Fifo(b)) => b.view() == stack_remove(
                a.view(),
                key,
            ),
            (PolicyStack::Clock(a), PolicyStack::Clock(b)) => b.view() == stack_remove(
                a.view(),
                key,
            ),
            (PolicyStack::Sieve(a), PolicyStack::Sieve(b)) => {
                &&& b.view() == stack_remove(a.view(), key)
                &&& (seq_has_key(a.view(), key) ==> b.spec_hand() == hand_before(a.view(), key))
                &&& (!seq_has_key(a.view(), key) ==> b.spec_hand() is None)
            },
            (PolicyStack::Lru(a), PolicyStack::Lru(b)) => b.view() == stack_remove(a.view(), key),
            (PolicyStack::Mru(a), PolicyStack::Mru(b)) => b.view() == stack_remove(a.view(), key),
            (PolicyStack::TwoQ(a), PolicyStack::TwoQ(b)) => b.in_view() == stack_remove(
                a.in_view(),
                key,
            ) && b.out_view() == stack_remove(a.out_view(), key) && b.am_view() == stack_remove(
                a.am_view(),
                key,
            ) && b.k_in == a.k_in && b.k_out == a.k_out && b.in_max == a.in_max && b.out_max
                == a.out_max,
            (PolicyStack::Arc(a), PolicyStack::Arc(b)) => b.model().t1 == stack_remove(
                a.model().t1,
                key,
            ) && b.model().t2 == stack_remove(a.model().t2, key) && b.model().b1 == stack_remove(
                a.model().b1,
                key,
            ) && b.model().b2 == stack_remove(a.model().b2, key) && b.model().p == a.model().p
                && b.model().max_size == a.model().max_size,
            (PolicyStack::SThreeFifo(a), PolicyStack::SThreeFifo(b)) => b.small_view()
                == stack_remove(a.small_view(), key) && b.main_view() == stack_remove(
                a.main_view(),
                key,
            ) && b.ghost_view() == stack_remove(a.ghost_view(), key) && b.ratio == a.ratio
                && b.small_max == a.small_max && b.main_max == a.main_max,
            _ => false,
        }
    }

    /// How an eviction steps the stack and which key it surrenders.
    pub open spec fn evict_rel(pre: PolicyStack, post: PolicyStack, r: Option<u64>) -> bool {
        match (pre, post) {
            (PolicyStack::Lfu(a), PolicyStack::Lfu(b)) => (b.view(), r) == lfu_evict(a.view()),
            (PolicyStack::Fifo(a), PolicyStack::Fifo(b)) => match r {
                Some(key) => a.view().len() > 0 && key == a.view().last().key && b.view()
                    == a.view().drop_last(),
                None => a.view().len() == 0 && b.view() == a.view(),
            },
            (PolicyStack::Clock(a), PolicyStack::Clock(b)) => (b.view(), r) == clock_evict(
                a.view(),
            ),
            (PolicyStack::Sieve(a), PolicyStack::Sieve(b)) => (b.view(), b.spec_hand(), r)
                == sieve_evict(a.view(), a.spec_hand()),
            (PolicyStack::Lru(a), PolicyStack::Lru(b)) => match r {
                Some(key) => a.view().len() > 0 && key == a.view().last().key && b.view()
                    == a.view().drop_last(),
                None => a.view().len() == 0 && b.view() == a.view(),
            },
            (PolicyStack::Mru(a), PolicyStack::Mru(b)) => match r {
                Some(key) => a.view().len() > 0 && key == a.view()[0].key && b.view()
                    == a.view().drop_first(),
                None => a.view().len() == 0 && b.view() == a.view(),
            },
            (PolicyStack::TwoQ(a), PolicyStack::TwoQ(b)) => {
                &&& (a.out_view().len() > 0 ==> r == Some(a.out_view().last().key) && b.out_view()
                    == a.out_view().drop_last() && b.in_view() == a.in_view() && b.am_view()
                    == a.am_view())
                &&& (a.out_view().len() == 0 && a.in_view().len() > 0 ==> r == Some(
                    a.in_view().last().key,
                ) && b.in_view() == a.in_view().drop_last() && b.out_view() == a.out_view()
                    && b.am_view() == a.am_view())
                &&& (a.out_view().len() == 0 && a.in_view().len() == 0 && a.am_view().len() > 0
                    ==> r == Some(a.am_view().last().key) && b.am_view()
                    == a.am_view().drop_last() && b.in_view() == a.in_view() && b.out_view()
                    == a.out_view())
                &&& (a.out_view().len() == 0 && a.in_view().len() == 0 && a.am_view().len() == 0
                    ==> r is None && b == a)
                &&& b.k_in == a.k_in
                &&& b.k_out == a.k_out
                &&& b.in_max == a.in_max
                &&& b.out_max == a.out_max
            },
            (PolicyStack::Arc(a), PolicyStack::Arc(b)) => (b.model(), r) == arc_evict(a.model()),
            (PolicyStack::SThreeFifo(a), PolicyStack::SThreeFifo(b)) => (
                b.small_view(),
                b.main_view(),
                b.ghost_view(),
                r,
            ) == s3_evict(a.small_view(), a.main_view(), a.ghost_view(), a.main_max) && b.ratio
                == a.ratio && b.small_max == a.small_max && b.main_max == a.main_max,
            _ => false,
        }
    }

    /// How a resize to `max_size` steps the stack: only the stacks that
    /// bound sub-queues by size change.
    pub open spec fn resize_rel(pre: PolicyStack, post: PolicyStack, max_size: CacheSize) -> bool {
        match (pre, post) {
            (PolicyStack::TwoQ(a), PolicyStack::TwoQ(b)) => b == (TwoQStack {
                in_max: crate::stack::two_q_stack::ratio_of(max_size, a.k_in),
                out_max: crate::stack::two_q_stack::ratio_of(max_size, a.k_out),
                ..a
            }),
            (PolicyStack::Arc(a), PolicyStack::Arc(b)) => b == (ArcStack { max_size, ..a }),
            (PolicyStack::SThreeFifo(a), PolicyStack::SThreeFifo(b)) => b == (SThreeFifoStack {
                small_max: crate::stack::two_q_stack::ratio_of(max_size, a.ratio),
                main_max: crate::stack::two_q_stack::ratio_of(
                    max_size,
                    (RATIO_SCALE - a.ratio) as u32,
                ),
                ..a
            }),
            _ => post == pre,
        }
    }

    /// Returns `true` iff this stack orders under `policy`.
    pub fn is_policy(&self, policy: &PaperPolicy) -> (r: bool)
        ensures
            r == (*policy == self.spec_policy_of()),
    {
        match self {
            PolicyStack::Lfu(s) => s.is_policy(policy),
            PolicyStack::Fifo(s) => s.is_policy(policy),
            PolicyStack::Clock(s) => s.is_policy(policy),
            PolicyStack::Sieve(s) => s.is_policy(policy),
            PolicyStack::Lru(s) => s.is_policy(policy),
            PolicyStack::Mru(s) => s.is_policy(policy),
            PolicyStack::TwoQ(s) => s.is_policy(policy),
            PolicyStack::Arc(s) => s.is_policy(policy),
            PolicyStack::SThreeFifo(s) => s.is_policy(policy),
        }
    }

    /// The number of keys held, saturating at the largest count.
    pub fn len(&self) -> (r: usize)
        requires
            self.wf(),
        ensures
            r == crate::stack::two_q_stack::sat_usize(self.spec_len()),
    {
        match self {
            PolicyStack::Lfu(s) => s.len(),
            PolicyStack::Fifo(s) => s.len(),
            PolicyStack::Clock(s) => s.len(),
            PolicyStack::Sieve(s) => s.len(),
            PolicyStack::Lru(s) => s.len(),
            PolicyStack::Mru(s) => s.len(),
            PolicyStack::TwoQ(s) => s.len(),
            PolicyStack::Arc(s) => s.len(),
            PolicyStack::SThreeFifo(s) => s.len(),
        }
    }

    /// Returns `true` iff the stack holds `key`.
    pub fn contains(&self, key: u64) -> (r: bool)
        requires
            self.wf(),
        ensures
            r == self.spec_contains(key),
    {
        match self {
            PolicyStack::Lfu(s) => s.contains(key),
            PolicyStack::Fifo(s) => s.contains(key),
            PolicyStack::Clock(s) => s.contains(key),
            PolicyStack::Sieve(s) => s.contains(key),
            PolicyStack::Lru(s) => s.contains(key),
            PolicyStack::Mru(s) => s.contains(key),
            PolicyStack::TwoQ(s) => s.contains(key),
            PolicyStack::Arc(s) => s.contains(key),
            PolicyStack::SThreeFifo(s) => s.contains(key),
        }
    }

    /// Admits `key` with `size` bytes under this stack's policy.
    pub fn insert(&mut self, key: u64, size: ObjectSize)
        requires
            old(self).wf(),
        ensures
            final(self).wf(),
            PolicyStack::insert_rel(*old(self), *final(self), key, size),
    {
        match self {
            PolicyStack::Lfu(s) => s.insert(key, size),
            PolicyStack::Fifo(s) => s.insert(key, size),
            PolicyStack::Clock(s) => s.insert(key, size),
            PolicyStack::Sieve(s) => s.insert(key, size),
            PolicyStack::Lru(s) => s.insert(key, size),
            PolicyStack::Mru(s) => s.insert(key, size),
            PolicyStack::TwoQ(s) => s.insert(key, size),
            PolicyStack::Arc(s) => s.insert(key, size),
            PolicyStack::SThreeFifo(s) => s.insert(key, size),
        }
    }

    /// Records an access of `key` under this stack's policy.
    pub fn update(&mut self, key: u64)
        requires
            old(self).wf(),
        ensures
            final(self).wf(),
            PolicyStack::update_rel(*old(self), *final(self), key),
    {
        match self {
            PolicyStack::Lfu(s) => s.update(key),
            PolicyStack::Fifo(s) => s.update(key),
            PolicyStack::Clock(s) => s.update(key),
            PolicyStack::Sieve(s) => s.update(key),
            PolicyStack::Lru(s) => s.update(key),
            PolicyStack::Mru(s) => s.update(key),
            PolicyStack::TwoQ(s) => s.update(key),
            PolicyStack::Arc(s) => s.update(key),
            PolicyStack::SThreeFifo(s) => s.update(key),
        }
    }

    /// Forgets `key`.
    pub fn remove(&mut self, key: u64)
        requires
            old(self).wf(),
        ensures
            final(self).wf(),
            PolicyStack::remove_rel(*old(self), *final(self), key),
    {
        match self {
            PolicyStack::Lfu(s) => s.remove(key),
            PolicyStack::Fifo(s) => s.remove(key),
            PolicyStack::Clock(s) => s.remove(key),
            PolicyStack::Sieve(s) => s.remove(key),
            PolicyStack::Lru(s) => s.remove(key),
            PolicyStack::Mru(s) => s.remove(key),
            PolicyStack::TwoQ(s) => s.remove(key),
            PolicyStack::Arc(s) => s.remove(key),
            PolicyStack::SThreeFifo(s) => s.remove(key),
        }
    }

    /// Resizes the stack's bounded sub-queues for a cache of `max_size`
    /// bytes.
    pub fn resize(&mut self, max_size: CacheSize)
        requires
            old(self).wf(),
        ensures
            final(self).wf(),
            PolicyStack::resize_rel(*old(self), *final(self), max_size),
    {
        match self {
            PolicyStack::TwoQ(s) => s.resize(max_size),
            PolicyStack::Arc(s) => s.resize(max_size),
            PolicyStack::SThreeFifo(s) => s.resize(max_size),
            _ => (),
        }
    }

    /// Forgets every key.
    pub fn clear(&mut self)
        requires
            old(self).wf(),
        ensures
            final(self).wf(),
            final(self).spec_is_empty(),
            final(self).spec_policy_of() == old(self).spec_policy_of(),
    {
        match self {
            PolicyStack::Lfu(s) => s.clear(),
            PolicyStack::Fifo(s) => s.clear(),
            PolicyStack::Clock(s) => s.clear(),
            PolicyStack::Sieve(s) => s.clear(),
            PolicyStack::Lru(s) => s.clear(),
            PolicyStack::Mru(s) => s.clear(),
            PolicyStack::TwoQ(s) => s.clear(),
            PolicyStack::Arc(s) => s.clear(),
            PolicyStack::SThreeFifo(s) => s.clear(),
        }
    }

    /// Takes the key this stack's policy orders out next, or `None` where
    /// it has none to offer.
    pub fn evict_one(&mut self) -> (r: Option<u64>)
        requires
            old(self).wf(),
        ensures
            final(self).wf(),
            PolicyStack::evict_rel(*old(self), *final(self), r),
    {
        match self {
            PolicyStack::Lfu(s) => s.evict_one(),
            PolicyStack::Fifo(s) => s.evict_one(),
            PolicyStack::Clock(s) => s.evict_one(),
            PolicyStack::Sieve(s) => s.evict_one(),
            PolicyStack::Lru(s) => s.evict_one(),
            PolicyStack::Mru(s) => s.evict_one(),
            PolicyStack::TwoQ(s) => s.evict_one(),
            PolicyStack::Arc(s) => s.evict_one(),
            PolicyStack::SThreeFifo(s) => s.evict_one(),
        }
    }
}

/// An eviction that surrenders a key shrinks the stack.
pub proof fn lemma_evict_some_shrinks(pre: PolicyStack, post: PolicyStack, key: u64)
    requires
        pre.wf(),
        PolicyStack::evict_rel(pre, post, Some(key)),
    ensures
        post.spec_len() < pre.spec_len(),
        pre.spec_len() >= 1,
{
    match (pre, post) {
        (PolicyStack::Lfu(a), PolicyStack::Lfu(b)) => {
            crate::stack::lfu_stack::lemma_lfu_evict_total(a.view());
        },
        (PolicyStack::Clock(a), PolicyStack::Clock(b)) => {
            crate::stack::clock_stack::lemma_clock_evict_len(a.view());
        },
        (PolicyStack::Sieve(a), PolicyStack::Sieve(b)) => {
            crate::stack::sieve_stack::lemma_sieve_evict_len(a.view(), a.spec_hand());
        },
        (PolicyStack::SThreeFifo(a), PolicyStack::SThreeFifo(b)) => {
            crate::stack::s_three_fifo_stack::lemma_s3_evict_len(
                a.small_view(),
                a.main_view(),
                a.ghost_view(),
                a.main_max,
            );
        },
        _ => (),
    }
}

/// Builds the empty eviction stack of `policy` for a cache of `max_size`
/// bytes; the adaptive policy starts on a least-frequently-used stack.
pub fn init_policy_stack(policy: &PaperPolicy, max_size: CacheSize) -> (r: PolicyStack)
    requires
        policy.params_valid(),
    ensures
        r.wf(),
        r.spec_is_empty(),
        !(*policy is Auto) ==> r.spec_policy_of() == *policy,
        *policy is Auto ==> r.spec_policy_of() == PaperPolicy::Lfu,
{
    match policy {
        PaperPolicy::Auto => PolicyStack::Lfu(LfuStack::new()),
        PaperPolicy::Lfu => PolicyStack::Lfu(LfuStack::new()),
        PaperPolicy::Fifo => PolicyStack::Fifo(FifoStack::new()),
        PaperPolicy::Clock => PolicyStack::Clock(ClockStack::new()),
        PaperPolicy::Sieve => PolicyStack::Sieve(SieveStack::new()),
        PaperPolicy::Lru => PolicyStack::Lru(LruStack::new()),
        PaperPolicy::Mru => PolicyStack::Mru(MruStack::new()),
        PaperPolicy::TwoQ(k_in, k_out) => PolicyStack::TwoQ(TwoQStack::new(*k_in, *k_out, max_size)),
        PaperPolicy::Arc => PolicyStack::Arc(ArcStack::new(max_size)),
        PaperPolicy::SThreeFifo(ratio) => PolicyStack::SThreeFifo(
            SThreeFifoStack::new(*ratio, max_size),
        ),
    }
}

} // verus!
