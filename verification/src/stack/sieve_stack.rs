//! The SIEVE eviction stack: CLOCK with a persistent hand.  The scan
//! clears visited marks in place instead of rotating, and the hand keeps
//! its position across insertions and evictions.
use vstd::prelude::*;

use crate::keylist::{Entry, KeyList, entry_of, key_index, seq_has_key};
use crate::policy::PaperPolicy;
use crate::stack::clock_stack::{
    cleared, clock_insert, clock_update, count_visited, lemma_count_visited_update_clear,
};
use crate::stack::lru_stack::stack_remove;

verus! {

/// Whether `hand` is a position the order holds: unset, or the key of a
/// held entry.
pub open spec fn hand_valid(v: Seq<Entry>, hand: Option<u64>) -> bool {
    match hand {
        Some(h) => seq_has_key(v, h),
        None => true,
    }
}

/// The hand position just before `cur` (toward the front), or unset where
/// `cur` stands at the front.
pub open spec fn hand_before(v: Seq<Entry>, cur: u64) -> Option<u64> {
    if key_index(v, cur) > 0 {
        Some(v[key_index(v, cur) - 1].key)
    } else {
        None
    }
}

/// The SIEVE scan: the remaining order, the new hand and the evicted key.
/// The scan starts at the hand, or at the back where the hand is unset,
/// clears visited marks in place moving toward the front, and removes the
/// first unvisited entry.
pub open spec fn sieve_evict(v: Seq<Entry>, hand: Option<u64>) -> (Seq<Entry>, Option<u64>, Option<
    u64,
>)
    decreases count_visited(v), v.len(),
    when true
    via sieve_evict_decreases
{
    if v.len() == 0 {
        (v, hand, None)
    } else {
        let cur = match hand {
            Some(h) => if seq_has_key(v, h) {
                h
            } else {
                v.last().key
            },
            None => v.last().key,
        };
        let idx = key_index(v, cur);
        let next_hand = hand_before(v, cur);
        if !v[idx].visited {
            (v.remove(idx), next_hand, Some(cur))
        } else {
            sieve_evict(v.update(idx, cleared(v[idx])), next_hand)
        }
    }
}

#[via_fn]
proof fn sieve_evict_decreases(v: Seq<Entry>, hand: Option<u64>) {
    if v.len() > 0 {
        let cur = match hand {
            Some(h) => if seq_has_key(v, h) {
                h
            } else {
                v.last().key
            },
            None => v.last().key,
        };
        if hand is Some && seq_has_key(v, hand->0) {
        } else {
            assert(v[v.len() - 1].key == v.last().key);
            assert(seq_has_key(v, cur));
        }
        let idx = key_index(v, cur);
        if 0 <= idx < v.len() && v[idx].visited {
            lemma_count_visited_update_clear(v, idx);
        }
    }
}

/// A SIEVE scan that surrenders a key shrinks the order by one; one that
/// surrenders none leaves it as it stands.
pub proof fn lemma_sieve_evict_len(v: Seq<Entry>, hand: Option<u64>)
    ensures
        v.len() > 0 ==> sieve_evict(v, hand).2 is Some && sieve_evict(v, hand).0.len() + 1
            == v.len(),
        v.len() == 0 ==> sieve_evict(v, hand).0 == v && sieve_evict(v, hand).2 is None,
    decreases count_visited(v), v.len(),
{
    if v.len() > 0 {
        let cur = match hand {
            Some(h) => if seq_has_key(v, h) {
                h
            } else {
                v.last().key
            },
            None => v.last().key,
        };
        if !(hand is Some && seq_has_key(v, hand->0)) {
            assert(v[v.len() - 1].key == v.last().key);
            assert(seq_has_key(v, cur));
        }
        let idx = key_index(v, cur);
        if v[idx].visited {
            lemma_count_visited_update_clear(v, idx);
            lemma_sieve_evict_len(v.update(idx, cleared(v[idx])), hand_before(v, cur));
        }
    }
}

/// The SIEVE eviction stack.
pub struct SieveStack {
    pub stack: KeyList,
    pub hand: Option<u64>,
}

impl SieveStack {
    /// The keys with their visited marks, newest first.
    pub open spec fn view(self) -> Seq<Entry> {
        self.stack.view()
    }

    /// The key the scan hand rests on, if any.
    pub open spec fn spec_hand(self) -> Option<u64> {
        self.hand
    }

    pub open spec fn wf(self) -> bool {
        self.stack.wf() && hand_valid(self.view(), self.hand)
    }

    /// Builds an empty stack.
    pub fn new() -> (r: SieveStack)
        ensures
            r.wf(),
            r.view() == Seq::<Entry>::empty(),
            r.spec_hand() is None,
    {
        SieveStack { stack: KeyList::new(), hand: None }
    }

    /// Returns `true` iff this stack orders under `policy`.
    pub fn is_policy(&self, policy: &PaperPolicy) -> (r: bool)
        ensures
            r == (*policy is Sieve),
    {
        matches!(policy, PaperPolicy::Sieve)
    }

    /// The number of keys held.
    pub fn len(&self) -> (r: usize)
        ensures
            r == self.view().len(),
    {
        self.stack.len()
    }

    /// Returns `true` iff the stack holds `key`.
    pub fn contains(&self, key: u64) -> (r: bool)
        requires
            self.wf(),
        ensures
            r == seq_has_key(self.view(), key),
    {
        self.stack.contains(key)
    }

    /// Admits `key`: a new key enters unvisited at the front, a held key
    /// is marked visited.  The hand does not move.
    pub fn insert(&mut self, key: u64, _size: u32)
        requires
            old(self).wf(),
        ensures
            final(self).wf(),
            final(self).view() == clock_insert(old(self).view(), key),
            final(self).spec_hand() == old(self).spec_hand(),
    {
        let ghost pre = self.view();
        if self.stack.contains(key) {
            self.update(key);
        } else {
            self.stack.push_front(Entry::of_key(key));
            proof {
                if self.hand is Some {
                    let h = self.hand->0;
                    let i = choose|i: int| 0 <= i < pre.len() && pre[i].key == h;
                    assert(self.view()[i + 1].key == h);
                }
            }
        }
    }

    /// Records an access of `key`, marking it visited.  The hand does not
    /// move.
    pub fn update(&mut self, key: u64)
        requires
            old(self).wf(),
        ensures
            final(self).wf(),
            final(self).view() == clock_update(old(self).view(), key),
            final(self).spec_hand() == old(self).spec_hand(),
    {
        let ghost pre = self.view();
        match self.stack.get_entry(key) {
            Some(entry) => {
                self.stack.replace(key, Entry { visited: true, ..entry });
                proof {
                    if self.hand is Some {
                        let h = self.hand->0;
                        let i = choose|i: int| 0 <= i < pre.len() && pre[i].key == h;
                        assert(self.view()[i].key == h);
                    }
                }
            },
            None => (),
        }
    }

    /// Forgets `key`, resting the hand on the entry before it where the
    /// key was held.
    pub fn remove(&mut self, key: u64)
        requires
            old(self).wf(),
        ensures
            final(self).wf(),
            final(self).view() == stack_remove(old(self).view(), key),
            seq_has_key(old(self).view(), key) ==> final(self).spec_hand() == hand_before(
                old(self).view(),
                key,
            ),
            !seq_has_key(old(self).view(), key) ==> final(self).spec_hand() is None,
    {
        let ghost pre = self.view();
        let next_hand = match self.stack.before_key(key) {
            Some(entry) => Some(entry.key),
            None => None,
        };
        self.hand = next_hand;
        let _ = self.stack.remove_key(key);
        proof {
            if seq_has_key(pre, key) && key_index(pre, key) > 0 {
                let idx = key_index(pre, key);
                assert(self.view()[idx - 1] == pre[idx - 1]);
            }
        }
    }

    /// Forgets every key and rests the hand.
    pub fn clear(&mut self)
        ensures
            final(self).wf(),
            final(self).view() == Seq::<Entry>::empty(),
            final(self).spec_hand() is None,
    {
        self.stack.clear();
        self.hand = None;
    }

    /// Runs the SIEVE scan from the hand toward the front, clearing
    /// visited marks in place, and takes the first unvisited key.
    pub fn evict_one(&mut self) -> (r: Option<u64>)
        requires
            old(self).wf(),
        ensures
            final(self).wf(),
            (final(self).view(), final(self).spec_hand(), r) == sieve_evict(
                old(self).view(),
                old(self).spec_hand(),
            ),
    {
        loop
            invariant
                self.wf(),
                sieve_evict(self.view(), self.spec_hand()) == sieve_evict(
                    old(self).view(),
                    old(self).spec_hand(),
                ),
            decreases count_visited(self.view()), self.view().len(),
        {
            let ghost pre = self.view();
            let ghost pre_hand = self.spec_hand();
            let cur: u64 = match self.hand {
                Some(h) => h,
                None => {
                    match self.stack.back() {
                        Some(entry) => entry.key,
                        None => {
                            return None;
                        },
                    }
                },
            };
            proof {
                if pre_hand is None {
                    crate::keylist::lemma_key_index_unique(pre, cur, pre.len() - 1);
                }
            }
            let ghost idx = key_index(pre, cur);
            let next_hand = match self.stack.before_key(cur) {
                Some(entry) => Some(entry.key),
                None => None,
            };
            let entry = match self.stack.get_entry(cur) {
                Some(entry) => entry,
                None => {
                    proof {
                        // the hand always rests on a held key
                        assert(false);
                    }
                    return None;
                },
            };
            self.hand = next_hand;
            if !entry.visited {
                let _ = self.stack.remove_key(cur);
                proof {
                    if idx > 0 {
                        assert(self.view()[idx - 1] == pre[idx - 1]);
                    }
                }
                return Some(cur);
            }
            self.stack.replace(cur, Entry { visited: false, ..entry });
            proof {
                assert(entry_of(pre, cur) == pre[idx]);
                assert(self.view() =~= pre.update(idx, cleared(pre[idx])));
                if idx > 0 {
                    assert(self.view()[idx - 1] == pre[idx - 1]);
                }
                lemma_count_visited_update_clear(pre, idx);
            }
        }
    }
}

} // verus!
