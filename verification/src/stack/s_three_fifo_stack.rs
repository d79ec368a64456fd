//! The S3-FIFO eviction stack: a small admission FIFO feeding a main FIFO,
//! with a ghost list of keys recently evicted from the small queue.  Keys
//! seen again while ghosted re-enter the main queue directly; main
//! evictions decrement a capped frequency count and re-enqueue until a
//! cold key is found.
use vstd::prelude::*;

use crate::keylist::{
    Entry, KeyList, entry_of, freq_sum, key_index, lemma_freq_sum_push, lemma_freq_sum_remove,
    lemma_has_key_push, lemma_has_key_remove, seq_has_key, size_sum,
};
use crate::policy::{PaperPolicy, RATIO_SCALE};
use crate::stack::sized_queue::{SizedQueue, queues_disjoint};
use crate::stack::two_q_stack::{apply_ratio, ratio_of, sized_update};

verus! {

/// An entry's frequency count raised by one, capped at three.
pub open spec fn bumped(e: Entry) -> Entry {
    Entry { freq: if e.freq >= 3 { e.freq } else { (e.freq + 1) as u8 }, ..e }
}

/// A queue after an access of `key`: its frequency count rises by one,
/// capped; a key the queue does not hold leaves it unchanged.
pub open spec fn s3_touch(v: Seq<Entry>, key: u64) -> Seq<Entry> {
    if seq_has_key(v, key) {
        v.update(key_index(v, key), bumped(entry_of(v, key)))
    } else {
        v
    }
}

/// The ghost list trimmed from the back until it holds at most `n` keys.
pub open spec fn ghost_trimmed(g: Seq<Entry>, n: int) -> Seq<Entry>
    decreases g.len(),
{
    if g.len() <= n || g.len() == 0 {
        g
    } else {
        ghost_trimmed(g.drop_last(), n)
    }
}

/// The main queue and ghost list after one main eviction: back entries
/// with a positive count re-enqueue at the front with the count lowered;
/// the first cold entry leaves, and the ghost list is trimmed to the
/// main queue's length.
pub open spec fn s3_evict_main(main: Seq<Entry>, g: Seq<Entry>) -> (Seq<Entry>, Seq<Entry>, Option<
    u64,
>)
    decreases freq_sum(main), main.len(),
    when true
    via s3_evict_main_decreases
{
    if main.len() == 0 {
        (main, g, None)
    } else {
        let e = main.last();
        if e.freq > 0 {
            s3_evict_main(
                seq![(Entry { freq: (e.freq - 1) as u8, ..e })] + main.drop_last(),
                g,
            )
        } else {
            (main.drop_last(), ghost_trimmed(g, main.len() - 1), Some(e.key))
        }
    }
}

#[via_fn]
proof fn s3_evict_main_decreases(main: Seq<Entry>, g: Seq<Entry>) {
    if main.len() > 0 && main.last().freq > 0 {
        let e = main.last();
        let rotated = seq![(Entry { freq: (e.freq - 1) as u8, ..e })] + main.drop_last();
        lemma_freq_sum_remove(main, main.len() - 1);
        assert(main.remove(main.len() - 1) =~= main.drop_last());
        lemma_freq_sum_push(Entry { freq: (e.freq - 1) as u8, ..e }, main.drop_last());
    }
}

/// The three queues after one small eviction: back entries seen more than
/// once move into the main queue (which may evict in turn where it
/// fills); the first other entry leaves and its key is remembered in the
/// ghost list.
pub open spec fn s3_evict_small(
    small: Seq<Entry>,
    main: Seq<Entry>,
    g: Seq<Entry>,
    main_max: u64,
) -> (Seq<Entry>, Seq<Entry>, Seq<Entry>, Option<u64>)
    decreases small.len(),
{
    if small.len() == 0 {
        (small, main, g, None)
    } else {
        let e = small.last();
        if e.freq > 1 {
            let grown = seq![e] + main;
            if size_sum(grown) >= main_max {
                let stepped = s3_evict_main(grown, g);
                (small.drop_last(), stepped.0, stepped.1, stepped.2)
            } else {
                s3_evict_small(small.drop_last(), grown, g, main_max)
            }
        } else {
            (
                small.drop_last(),
                main,
                seq![(Entry { key: e.key, size: 0, visited: false, freq: 0 })] + g,
                Some(e.key),
            )
        }
    }
}

/// The three queues after one eviction: the small queue is preferred
/// while the main queue is not full, the main queue finishes the job.
pub open spec fn s3_evict(
    small: Seq<Entry>,
    main: Seq<Entry>,
    g: Seq<Entry>,
    main_max: u64,
) -> (Seq<Entry>, Seq<Entry>, Seq<Entry>, Option<u64>) {
    if size_sum(main) < main_max {
        let stepped = s3_evict_small(small, main, g, main_max);
        if stepped.3 is Some {
            stepped
        } else {
            let finished = s3_evict_main(stepped.1, stepped.2);
            (stepped.0, finished.0, finished.1, finished.2)
        }
    } else {
        let finished = s3_evict_main(main, g);
        (small, finished.0, finished.1, finished.2)
    }
}

/// A main eviction that surrenders a key shrinks the main queue by one;
/// one that surrenders none leaves both queues as they stand.
pub proof fn lemma_s3_evict_main_len(main: Seq<Entry>, g: Seq<Entry>)
    ensures
        main.len() > 0 ==> s3_evict_main(main, g).2 is Some && s3_evict_main(main, g).0.len() + 1
            == main.len(),
        main.len() == 0 ==> s3_evict_main(main, g).0 == main && s3_evict_main(main, g).1 == g
            && s3_evict_main(main, g).2 is None,
    decreases freq_sum(main), main.len(),
{
    if main.len() > 0 {
        let e = main.last();
        if e.freq > 0 {
            let rotated = seq![(Entry { freq: (e.freq - 1) as u8, ..e })] + main.drop_last();
            lemma_freq_sum_remove(main, main.len() - 1);
            assert(main.remove(main.len() - 1) =~= main.drop_last());
            lemma_freq_sum_push(Entry { freq: (e.freq - 1) as u8, ..e }, main.drop_last());
            lemma_s3_evict_main_len(rotated, g);
        }
    }
}

/// A small eviction that surrenders a key shrinks the two live queues by
/// one in all; one that surrenders none keeps their total.
pub proof fn lemma_s3_evict_small_len(
    small: Seq<Entry>,
    main: Seq<Entry>,
    g: Seq<Entry>,
    main_max: u64,
)
    ensures
        s3_evict_small(small, main, g, main_max).3 is Some ==> s3_evict_small(
            small,
            main,
            g,
            main_max,
        ).0.len() + s3_evict_small(small, main, g, main_max).1.len() + 1 == small.len()
            + main.len(),
        s3_evict_small(small, main, g, main_max).3 is None ==> s3_evict_small(
            small,
            main,
            g,
            main_max,
        ).0.len() + s3_evict_small(small, main, g, main_max).1.len() == small.len() + main.len(),
    decreases small.len(),
{
    if small.len() > 0 {
        let e = small.last();
        if e.freq > 1 {
            let grown = seq![e] + main;
            if size_sum(grown) >= main_max {
                lemma_s3_evict_main_len(grown, g);
            } else {
                lemma_s3_evict_small_len(small.drop_last(), grown, g, main_max);
            }
        }
    }
}

/// An eviction that surrenders a key shrinks the two live queues by one
/// in all.
pub proof fn lemma_s3_evict_len(small: Seq<Entry>, main: Seq<Entry>, g: Seq<Entry>, main_max: u64)
    ensures
        s3_evict(small, main, g, main_max).3 is Some ==> s3_evict(small, main, g, main_max).0.len()
            + s3_evict(small, main, g, main_max).1.len() + 1 == small.len() + main.len(),
{
    if size_sum(main) < main_max {
        lemma_s3_evict_small_len(small, main, g, main_max);
        let stepped = s3_evict_small(small, main, g, main_max);
        if !(stepped.3 is Some) {
            lemma_s3_evict_main_len(stepped.1, stepped.2);
        }
    } else {
        lemma_s3_evict_main_len(main, g);
    }
}

/// The S3-FIFO eviction stack.
pub struct SThreeFifoStack {
    /// The small queue's ratio, in parts per million of the cache size.
    pub ratio: u32,
    pub small: SizedQueue,
    pub main: SizedQueue,
    pub ghost_keys: KeyList,
    pub small_max: u64,
    pub main_max: u64,
}

impl SThreeFifoStack {
    pub open spec fn small_view(self) -> Seq<Entry> {
        self.small.view()
    }

    pub open spec fn main_view(self) -> Seq<Entry> {
        self.main.view()
    }

    pub open spec fn ghost_view(self) -> Seq<Entry> {
        self.ghost_keys.view()
    }

    /// Whether the small or main queue holds `key`.
    pub open spec fn spec_contains(self, key: u64) -> bool {
        seq_has_key(self.small_view(), key) || seq_has_key(self.main_view(), key)
    }

    pub open spec fn wf(self) -> bool {
        &&& self.ratio <= RATIO_SCALE
        &&& self.small.wf()
        &&& self.main.wf()
        &&& self.ghost_keys.wf()
        &&& queues_disjoint(self.small_view(), self.main_view())
        &&& queues_disjoint(self.small_view(), self.ghost_view())
    }

    /// Builds an empty stack for a cache of `max_size` bytes, splitting it
    /// between the small and main queues by `ratio`.
    pub fn new(ratio: u32, max_size: u64) -> (r: SThreeFifoStack)
        requires
            ratio <= RATIO_SCALE,
        ensures
            r.wf(),
            r.small_view() == Seq::<Entry>::empty(),
            r.main_view() == Seq::<Entry>::empty(),
            r.ghost_view() == Seq::<Entry>::empty(),
            r.ratio == ratio,
            r.small_max == ratio_of(max_size, ratio),
            r.main_max == ratio_of(max_size, (RATIO_SCALE - ratio) as u32),
    {
        SThreeFifoStack {
            ratio,
            small: SizedQueue::new(),
            main: SizedQueue::new(),
            ghost_keys: KeyList::new(),
            small_max: apply_ratio(max_size, ratio),
            main_max: apply_ratio(max_size, RATIO_SCALE - ratio),
        }
    }

    /// Returns `true` iff this stack orders under `policy`.
    pub fn is_policy(&self, policy: &PaperPolicy) -> (r: bool)
        ensures
            r == (policy matches PaperPolicy::SThreeFifo(a) && a == self.ratio),
    {
        match policy {
            PaperPolicy::SThreeFifo(a) => *a == self.ratio,
            _ => false,
        }
    }

    /// The number of keys held by the small and main queues.
    pub fn len(&self) -> (r: usize)
        ensures
            r == crate::stack::two_q_stack::sat_usize(
                self.small_view().len() + self.main_view().len() as int,
            ),
    {
        self.small.len().saturating_add(self.main.len())
    }

    /// Returns `true` iff the small or main queue holds `key`.
    pub fn contains(&self, key: u64) -> (r: bool)
        requires
            self.wf(),
        ensures
            r == self.spec_contains(key),
    {
        self.small.contains(key) || self.main.contains(key)
    }

    /// Admits `key` of `size` bytes: a held key has its size refreshed
    /// and counts as an access; a ghosted key re-enters the main queue;
    /// a cold key enters the small queue.
    pub fn insert(&mut self, key: u64, size: u32)
        requires
            old(self).wf(),
        ensures
            final(self).wf(),
            old(self).spec_contains(key) ==> {
                &&& final(self).small_view() == s3_touch(
                    sized_update(old(self).small_view(), key, size),
                    key,
                )
                &&& final(self).main_view() == s3_touch(
                    sized_update(old(self).main_view(), key, size),
                    key,
                )
                &&& final(self).ghost_view() == old(self).ghost_view()
            },
            !old(self).spec_contains(key) && seq_has_key(old(self).ghost_view(), key) ==> {
                &&& final(self).main_view() == seq![
                    (Entry { key, size, visited: false, freq: 0 }),
                ] + old(self).main_view()
                &&& final(self).small_view() == old(self).small_view()
                &&& final(self).ghost_view() == old(self).ghost_view()
            },
            !old(self).spec_contains(key) && !seq_has_key(old(self).ghost_view(), key) ==> {
                &&& final(self).small_view() == seq![
                    (Entry { key, size, visited: false, freq: 0 }),
                ] + old(self).small_view()
                &&& final(self).main_view() == old(self).main_view()
                &&& final(self).ghost_view() == old(self).ghost_view()
            },
            final(self).ratio == old(self).ratio,
            final(self).small_max == old(self).small_max,
            final(self).main_max == old(self).main_max,
    {
        let ghost pre = self.small_view();
        if self.contains(key) {
            self.small.update_size(key, size);
            self.main.update_size(key, size);
            proof {
                crate::stack::two_q_stack::lemma_sized_update_has(old(self).small_view(), key, size);
                crate::stack::two_q_stack::lemma_sized_update_has(old(self).main_view(), key, size);
            }
            self.update(key);
            return;
        }
        let entry = Entry { key, size, visited: false, freq: 0 };
        if self.ghost_keys.contains(key) {
            self.main.push_entry(entry);
            proof {
                assert forall|k2: u64|
                    !(seq_has_key(self.small_view(), k2) && seq_has_key(
                        self.main_view(),
                        k2,
                    )) by {
                    if seq_has_key(self.main_view(), k2) {
                        lemma_has_key_push(entry, old(self).main_view(), k2);
                    }
                }
            }
        } else {
            self.small.push_entry(entry);
            proof {
                assert forall|k2: u64|
                    seq_has_key(self.small_view(), k2) implies (k2 == key || seq_has_key(
                    old(self).small_view(),
                    k2,
                )) by {
                    lemma_has_key_push(entry, old(self).small_view(), k2);
                }
            }
        }
    }

    /// Records an access of `key`, raising its capped frequency count.
    pub fn update(&mut self, key: u64)
        requires
            old(self).wf(),
        ensures
            final(self).wf(),
            final(self).small_view() == s3_touch(old(self).small_view(), key),
            final(self).main_view() == s3_touch(old(self).main_view(), key),
            final(self).ghost_view() == old(self).ghost_view(),
            final(self).ratio == old(self).ratio,
            final(self).small_max == old(self).small_max,
            final(self).main_max == old(self).main_max,
    {
        match self.small.get_entry(key) {
            Some(entry) => {
                let raised = if entry.freq >= 3 {
                    entry.freq
                } else {
                    entry.freq + 1
                };
                self.touch_small(key, Entry { freq: raised, ..entry });
            },
            None => (),
        }
        match self.main.get_entry(key) {
            Some(entry) => {
                let raised = if entry.freq >= 3 {
                    entry.freq
                } else {
                    entry.freq + 1
                };
                self.touch_main(key, Entry { freq: raised, ..entry });
            },
            None => (),
        }
    }

    /// Forgets `key` from every queue.
    pub fn remove(&mut self, key: u64)
        requires
            old(self).wf(),
        ensures
            final(self).wf(),
            final(self).small_view() == crate::stack::lru_stack::stack_remove(
                old(self).small_view(),
                key,
            ),
            final(self).main_view() == crate::stack::lru_stack::stack_remove(
                old(self).main_view(),
                key,
            ),
            final(self).ghost_view() == crate::stack::lru_stack::stack_remove(
                old(self).ghost_view(),
                key,
            ),
            final(self).ratio == old(self).ratio,
            final(self).small_max == old(self).small_max,
            final(self).main_max == old(self).main_max,
    {
        let ghost pre_small = self.small_view();
        let ghost pre_ghost = self.ghost_view();
        let _ = self.small.remove_key(key);
        let _ = self.main.remove_key(key);
        let _ = self.ghost_keys.remove_key(key);
        proof {
            crate::stack::two_q_stack::lemma_remove_keeps_disjoint(
                pre_small,
                self.small_view(),
                key,
            );
            crate::stack::two_q_stack::lemma_remove_keeps_disjoint(
                pre_ghost,
                self.ghost_view(),
                key,
            );
        }
    }

    /// Resizes the two queues to their shares of `max_size`.
    pub fn resize(&mut self, max_size: u64)
        requires
            old(self).wf(),
        ensures
            final(self).wf(),
            *final(self) == (SThreeFifoStack {
                small_max: ratio_of(max_size, old(self).ratio),
                main_max: ratio_of(max_size, (RATIO_SCALE - old(self).ratio) as u32),
                ..*old(self)
            }),
    {
        self.small_max = apply_ratio(max_size, self.ratio);
        self.main_max = apply_ratio(max_size, RATIO_SCALE - self.ratio);
    }

    /// Forgets every key.
    pub fn clear(&mut self)
        requires
            old(self).wf(),
        ensures
            final(self).wf(),
            final(self).small_view() == Seq::<Entry>::empty(),
            final(self).main_view() == Seq::<Entry>::empty(),
            final(self).ghost_view() == Seq::<Entry>::empty(),
            final(self).ratio == old(self).ratio,
            final(self).small_max == old(self).small_max,
            final(self).main_max == old(self).main_max,
    {
        self.small.clear();
        self.main.clear();
        self.ghost_keys.clear();
    }

    /// Takes one key: from the small queue while the main queue is not
    /// full, else from the main queue.
    pub fn evict_one(&mut self) -> (r: Option<u64>)
        requires
            old(self).wf(),
        ensures
            final(self).wf(),
            (final(self).small_view(), final(self).main_view(), final(self).ghost_view(), r)
                == s3_evict(
                old(self).small_view(),
                old(self).main_view(),
                old(self).ghost_view(),
                old(self).main_max,
            ),
            final(self).ratio == old(self).ratio,
            final(self).small_max == old(self).small_max,
            final(self).main_max == old(self).main_max,
    {
        let n = self.main.len();
        proof {
            crate::stack::sized_queue::lemma_size_sum_fits(self.main_view(), n);
        }
        if self.main.used() < self.main_max as u128 {
            if let Some(key) = self.evict_small() {
                return Some(key);
            }
        }
        self.evict_main()
    }

    /// Rewrites the entry for `key` in the small queue, keeping its key
    /// and size.
    fn touch_small(&mut self, key: u64, entry: Entry)
        requires
            old(self).wf(),
            entry.key == key,
            seq_has_key(old(self).small_view(), key) ==> entry.size == entry_of(
                old(self).small_view(),
                key,
            ).size,
        ensures
            final(self).wf(),
            seq_has_key(old(self).small_view(), key) ==> final(self).small_view() == old(
                self,
            ).small_view().update(key_index(old(self).small_view(), key), entry),
            !seq_has_key(old(self).small_view(), key) ==> final(self).small_view() == old(
                self,
            ).small_view(),
            final(self).main_view() == old(self).main_view(),
            final(self).ghost_view() == old(self).ghost_view(),
            final(self).ratio == old(self).ratio,
            final(self).small_max == old(self).small_max,
            final(self).main_max == old(self).main_max,
    {
        let ghost pre = self.small_view();
        proof {
            if seq_has_key(pre, key) {
                crate::keylist::lemma_size_sum_update(pre, key_index(pre, key), entry);
            }
        }
        self.small.stack.replace(key, entry);
        proof {
            if seq_has_key(pre, key) {
                assert forall|k2: u64|
                    seq_has_key(self.small_view(), k2) == seq_has_key(pre, k2) by {
                    crate::keylist::lemma_has_key_update(pre, key_index(pre, key), entry, k2);
                }
            }
        }
    }

    /// Rewrites the entry for `key` in the main queue, keeping its key
    /// and size.
    fn touch_main(&mut self, key: u64, entry: Entry)
        requires
            old(self).wf(),
            entry.key == key,
            seq_has_key(old(self).main_view(), key) ==> entry.size == entry_of(
                old(self).main_view(),
                key,
            ).size,
        ensures
            final(self).wf(),
            seq_has_key(old(self).main_view(), key) ==> final(self).main_view() == old(
                self,
            ).main_view().update(key_index(old(self).main_view(), key), entry),
            !seq_has_key(old(self).main_view(), key) ==> final(self).main_view() == old(
                self,
            ).main_view(),
            final(self).small_view() == old(self).small_view(),
            final(self).ghost_view() == old(self).ghost_view(),
            final(self).ratio == old(self).ratio,
            final(self).small_max == old(self).small_max,
            final(self).main_max == old(self).main_max,
    {
        let ghost pre = self.main_view();
        proof {
            if seq_has_key(pre, key) {
                crate::keylist::lemma_size_sum_update(pre, key_index(pre, key), entry);
            }
        }
        self.main.stack.replace(key, entry);
        proof {
            if seq_has_key(pre, key) {
                assert forall|k2: u64|
                    seq_has_key(self.main_view(), k2) == seq_has_key(pre, k2) by {
                    crate::keylist::lemma_has_key_update(pre, key_index(pre, key), entry, k2);
                }
            }
        }
    }

    /// Drains the small queue: keys seen more than once move to the main
    /// queue, the first other key leaves into the ghost list.
    fn evict_small(&mut self) -> (r: Option<u64>)
        requires
            old(self).wf(),
        ensures
            final(self).wf(),
            (final(self).small_view(), final(self).main_view(), final(self).ghost_view(), r)
                == s3_evict_small(
                old(self).small_view(),
                old(self).main_view(),
                old(self).ghost_view(),
                old(self).main_max,
            ),
            final(self).ratio == old(self).ratio,
            final(self).small_max == old(self).small_max,
            final(self).main_max == old(self).main_max,
    {
        loop
            invariant
                self.wf(),
                self.ratio == old(self).ratio,
                self.small_max == old(self).small_max,
                self.main_max == old(self).main_max,
                s3_evict_small(
                    self.small_view(),
                    self.main_view(),
                    self.ghost_view(),
                    self.main_max,
                ) == s3_evict_small(
                    old(self).small_view(),
                    old(self).main_view(),
                    old(self).ghost_view(),
                    old(self).main_max,
                ),
            decreases self.small_view().len(),
        {
            let ghost pre_small = self.small_view();
            let ghost pre_main = self.main_view();
            let entry = match self.small.pop_back() {
                Some(entry) => entry,
                None => {
                    return None;
                },
            };
            proof {
                assert(pre_small[pre_small.len() - 1].key == entry.key);
                assert(seq_has_key(pre_small, entry.key));
                assert forall|k2: u64|
                    seq_has_key(self.small_view(), k2) implies seq_has_key(pre_small, k2) by {
                    assert(self.small_view() =~= pre_small.remove(pre_small.len() - 1));
                    lemma_has_key_remove(pre_small, pre_small.len() - 1, k2);
                }
            }
            if entry.freq > 1 {
                self.main.push_entry(entry);
                proof {
                    assert forall|k2: u64|
                        !(seq_has_key(self.small_view(), k2) && seq_has_key(
                            self.main_view(),
                            k2,
                        )) by {
                        if seq_has_key(self.small_view(), k2) && seq_has_key(
                            self.main_view(),
                            k2,
                        ) {
                            assert(self.small_view() =~= pre_small.remove(pre_small.len() - 1));
                            lemma_has_key_remove(pre_small, pre_small.len() - 1, k2);
                            lemma_has_key_push(entry, pre_main, k2);
                            if k2 == entry.key {
                                crate::keylist::lemma_key_index_unique(
                                    pre_small,
                                    entry.key,
                                    pre_small.len() - 1,
                                );
                            }
                        }
                    }
                }
                let n = self.main.len();
                proof {
                    crate::stack::sized_queue::lemma_size_sum_fits(self.main_view(), n);
                }
                if self.main.used() >= self.main_max as u128 {
                    return self.evict_main();
                }
            } else {
                proof {
                    assert(!seq_has_key(self.ghost_view(), entry.key));
                }
                self.ghost_keys.push_front(
                    Entry { key: entry.key, size: 0, visited: false, freq: 0 },
                );
                proof {
                    assert forall|k2: u64|
                        !(seq_has_key(self.small_view(), k2) && seq_has_key(
                            self.ghost_view(),
                            k2,
                        )) by {
                        if seq_has_key(self.small_view(), k2) && seq_has_key(
                            self.ghost_view(),
                            k2,
                        ) {
                            assert(self.small_view() =~= pre_small.remove(pre_small.len() - 1));
                            lemma_has_key_remove(pre_small, pre_small.len() - 1, k2);
                            lemma_has_key_push(
                                Entry { key: entry.key, size: 0, visited: false, freq: 0 },
                                old(self).ghost_view(),
                                k2,
                            );
                            if k2 == entry.key {
                                crate::keylist::lemma_key_index_unique(
                                    pre_small,
                                    entry.key,
                                    pre_small.len() - 1,
                                );
                            }
                        }
                    }
                }
                return Some(entry.key);
            }
        }
    }

    /// Drains the main queue: back entries with a positive count
    /// re-enqueue with the count lowered, the first cold entry leaves and
    /// the ghost list is trimmed to the main queue's length.
    fn evict_main(&mut self) -> (r: Option<u64>)
        requires
            old(self).wf(),
        ensures
            final(self).wf(),
            (final(self).main_view(), final(self).ghost_view(), r) == s3_evict_main(
                old(self).main_view(),
                old(self).ghost_view(),
            ),
            final(self).small_view() == old(self).small_view(),
            final(self).ratio == old(self).ratio,
            final(self).small_max == old(self).small_max,
            final(self).main_max == old(self).main_max,
    {
        loop
            invariant
                self.wf(),
                self.small_view() == old(self).small_view(),
                self.ghost_view() == old(self).ghost_view(),
                self.ratio == old(self).ratio,
                self.small_max == old(self).small_max,
                self.main_max == old(self).main_max,
                s3_evict_main(self.main_view(), self.ghost_view()) == s3_evict_main(
                    old(self).main_view(),
                    old(self).ghost_view(),
                ),
            decreases freq_sum(self.main_view()), self.main_view().len(),
        {
            let ghost pre_main = self.main_view();
            let entry = match self.main.pop_back() {
                Some(entry) => entry,
                None => {
                    return None;
                },
            };
            if entry.freq > 0 {
                let lowered = Entry { freq: entry.freq - 1, ..entry };
                proof {
                    assert(pre_main[pre_main.len() - 1].key == entry.key);
                    assert(self.main_view() =~= pre_main.remove(pre_main.len() - 1));
                    lemma_has_key_remove(pre_main, pre_main.len() - 1, entry.key);
                    crate::keylist::lemma_key_index_unique(
                        pre_main,
                        entry.key,
                        pre_main.len() - 1,
                    );
                }
                self.main.push_entry(lowered);
                proof {
                    assert forall|k2: u64|
                        !(seq_has_key(self.small_view(), k2) && seq_has_key(
                            self.main_view(),
                            k2,
                        )) by {
                        if seq_has_key(self.main_view(), k2) {
                            lemma_has_key_push(lowered, pre_main.drop_last(), k2);
                            if k2 != lowered.key {
                                assert(pre_main.drop_last() =~= pre_main.remove(
                                    pre_main.len() - 1,
                                ));
                                lemma_has_key_remove(pre_main, pre_main.len() - 1, k2);
                            } else {
                                assert(seq_has_key(pre_main, k2));
                            }
                        }
                    }
                    lemma_freq_sum_remove(pre_main, pre_main.len() - 1);
                    assert(pre_main.remove(pre_main.len() - 1) =~= pre_main.drop_last());
                    lemma_freq_sum_push(lowered, pre_main.drop_last());
                }
            } else {
                let main_len = self.main.len();
                while self.ghost_keys.len() > main_len
                    invariant
                        self.wf(),
                        self.small_view() == old(self).small_view(),
                        self.main_view() == pre_main.drop_last(),
                        main_len == self.main_view().len(),
                        self.ratio == old(self).ratio,
                        self.small_max == old(self).small_max,
                        self.main_max == old(self).main_max,
                        ghost_trimmed(self.ghost_view(), main_len as int) == ghost_trimmed(
                            old(self).ghost_view(),
                            main_len as int,
                        ),
                    decreases self.ghost_view().len(),
                {
                    let ghost pre_ghost = self.ghost_view();
                    let _ = self.ghost_keys.pop_back();
                    proof {
                        assert(self.ghost_view() =~= pre_ghost.drop_last());
                        assert forall|k2: u64|
                            seq_has_key(self.ghost_view(), k2) implies seq_has_key(
                            pre_ghost,
                            k2,
                        ) by {
                            assert(self.ghost_view() =~= pre_ghost.remove(pre_ghost.len() - 1));
                            lemma_has_key_remove(pre_ghost, pre_ghost.len() - 1, k2);
                        }
                    }
                }
                proof {
                    assert(ghost_trimmed(self.ghost_view(), main_len as int) == self.ghost_view());
                }
                return Some(entry.key);
            }
        }
    }
}

} // verus!
