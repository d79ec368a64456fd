//! The CLOCK eviction stack: first-in-first-out with a second chance.  An
//! access marks a key visited; eviction scans from the back, rotating
//! visited keys to the front with their mark cleared, until it finds an
//! unvisited key.
use vstd::prelude::*;

use crate::keylist::{Entry, KeyList, entry_of, key_index, seq_has_key, seq_keys_unique};
use crate::policy::PaperPolicy;
use crate::stack::lru_stack::{spec_ent, stack_remove};

verus! {

/// The entry `e` with its visited mark cleared.
pub open spec fn cleared(e: Entry) -> Entry {
    Entry { visited: false, ..e }
}

/// The number of visited entries in `v`.
pub open spec fn count_visited(v: Seq<Entry>) -> nat
    decreases v.len(),
{
    if v.len() == 0 {
        0
    } else {
        (if v[0].visited {
            1nat
        } else {
            0nat
        }) + count_visited(v.drop_first())
    }
}

/// Counting visited entries from the front counts the back entry last.
pub proof fn lemma_count_visited_last(v: Seq<Entry>)
    requires
        v.len() > 0,
    ensures
        count_visited(v) == count_visited(v.drop_last()) + (if v.last().visited {
            1nat
        } else {
            0nat
        }),
    decreases v.len(),
{
    if v.len() == 1 {
        assert(count_visited(v.drop_first()) == 0);
        assert(count_visited(v.drop_last()) == 0);
        assert(v.last() == v[0]);
    } else {
        lemma_count_visited_last(v.drop_first());
        assert(v.drop_first().drop_last() =~= v.drop_last().drop_first());
        assert(v.drop_last()[0] == v[0]);
        assert(count_visited(v.drop_last()) == (if v.drop_last()[0].visited { 1nat } else { 0nat })
            + count_visited(v.drop_last().drop_first()));
    }
}

/// Clearing the visited mark of a visited entry lowers the visited count
/// by one.
pub proof fn lemma_count_visited_update_clear(v: Seq<Entry>, i: int)
    requires
        0 <= i < v.len(),
        v[i].visited,
    ensures
        count_visited(v) == count_visited(v.update(i, cleared(v[i]))) + 1,
    decreases v.len(),
{
    if i == 0 {
        assert(v.update(0, cleared(v[0])).drop_first() =~= v.drop_first());
    } else {
        lemma_count_visited_update_clear(v.drop_first(), i - 1);
        assert(v.update(i, cleared(v[i])).drop_first() =~= v.drop_first().update(
            i - 1,
            cleared(v.drop_first()[i - 1]),
        ));
    }
}

/// The order after an access of `key`: its visited mark is set; a key the
/// stack does not hold leaves it unchanged.
pub open spec fn clock_update(v: Seq<Entry>, key: u64) -> Seq<Entry> {
    if seq_has_key(v, key) {
        v.update(key_index(v, key), Entry { visited: true, ..entry_of(v, key) })
    } else {
        v
    }
}

/// The order after an insert of `key`: a new key enters unvisited at the
/// front, a held key is marked visited.
pub open spec fn clock_insert(v: Seq<Entry>, key: u64) -> Seq<Entry> {
    if seq_has_key(v, key) {
        clock_update(v, key)
    } else {
        seq![spec_ent(key)] + v
    }
}

/// The CLOCK scan: the remaining order and the evicted key.  Visited back
/// entries rotate to the front with their mark cleared; the first
/// unvisited back entry leaves.
pub open spec fn clock_evict(v: Seq<Entry>) -> (Seq<Entry>, Option<u64>)
    decreases count_visited(v), v.len(),
    when true
    via clock_evict_decreases
{
    if v.len() == 0 {
        (v, None)
    } else if !v.last().visited {
        (v.drop_last(), Some(v.last().key))
    } else {
        clock_evict(clock_rotate(v))
    }
}

#[via_fn]
proof fn clock_evict_decreases(v: Seq<Entry>) {
    if v.len() > 0 && v.last().visited {
        lemma_clock_rotate_decreases(v);
    }
}

/// One rotation of the CLOCK scan: the back entry moves to the front with
/// its mark cleared.
pub open spec fn clock_rotate(v: Seq<Entry>) -> Seq<Entry> {
    seq![cleared(v.last())] + v.drop_last()
}

/// A rotation lowers the visited count of a visited back entry by one.
pub proof fn lemma_clock_rotate_decreases(v: Seq<Entry>)
    requires
        v.len() > 0,
        v.last().visited,
    ensures
        count_visited(clock_rotate(v)) + 1 == count_visited(v),
        clock_rotate(v).len() == v.len(),
{
    lemma_count_visited_last(v);
    assert(clock_rotate(v).drop_first() =~= v.drop_last());
}

/// A rotation keeps the keys and their uniqueness.
pub proof fn lemma_clock_rotate_wf(v: Seq<Entry>)
    requires
        v.len() > 0,
        seq_keys_unique(v),
    ensures
        seq_keys_unique(clock_rotate(v)),
        !seq_has_key(v.drop_last(), v.last().key),
{
    let r = clock_rotate(v);
    assert forall|i: int| 0 <= i < v.len() - 1 implies v.drop_last()[i].key != v.last().key by {
        assert(v[i].key != v[v.len() - 1].key);
    }
    assert forall|i: int, j: int| 0 <= i < j < r.len() implies r[i].key != r[j].key by {
        if i == 0 {
            assert(r[j] == v[j - 1]);
            assert(v[j - 1].key != v[v.len() - 1].key);
        } else {
            assert(v[i - 1].key != v[j - 1].key);
        }
    }
}

/// A CLOCK scan that surrenders a key shrinks the order by one; one that
/// surrenders none leaves it as it stands.
pub proof fn lemma_clock_evict_len(v: Seq<Entry>)
    ensures
        v.len() > 0 ==> clock_evict(v).1 is Some && clock_evict(v).0.len() + 1 == v.len(),
        v.len() == 0 ==> clock_evict(v) == (v, Option::<u64>::None),
    decreases count_visited(v), v.len(),
{
    if v.len() > 0 && v.last().visited {
        lemma_clock_rotate_decreases(v);
        lemma_clock_evict_len(clock_rotate(v));
    }
}

/// The CLOCK eviction stack.
pub struct ClockStack {
    pub stack: KeyList,
}

impl ClockStack {
    /// The keys with their visited marks, newest first.
    pub open spec fn view(self) -> Seq<Entry> {
        self.stack.view()
    }

    pub open spec fn wf(self) -> bool {
        self.stack.wf()
    }

    /// Builds an empty stack.
    pub fn new() -> (r: ClockStack)
        ensures
            r.wf(),
            r.view() == Seq::<Entry>::empty(),
    {
        ClockStack { stack: KeyList::new() }
    }

    /// Returns `true` iff this stack orders under `policy`.
    pub fn is_policy(&self, policy: &PaperPolicy) -> (r: bool)
        ensures
            r == (*policy is Clock),
    {
        matches!(policy, PaperPolicy::Clock)
    }

    /// The number of keys held.
    pub fn len(&self) -> (r: usize)
        ensures
            r == self.view().len(),
    {
        self.stack.len()
    }

    /// Returns `true` iff the stack holds `key`.
    pub fn contains(&self, key: u64) -> (r: bool)
        requires
            self.wf(),
        ensures
            r == seq_has_key(self.view(), key),
    {
        self.stack.contains(key)
    }

    /// Admits `key`: a new key enters unvisited at the front, a held key
    /// is marked visited.
    pub fn insert(&mut self, key: u64, _size: u32)
        requires
            old(self).wf(),
        ensures
            final(self).wf(),
            final(self).view() == clock_insert(old(self).view(), key),
    {
        if self.stack.contains(key) {
            self.update(key);
        } else {
            self.stack.push_front(Entry::of_key(key));
        }
    }

    /// Records an access of `key`, marking it visited.
    pub fn update(&mut self, key: u64)
        requires
            old(self).wf(),
        ensures
            final(self).wf(),
            final(self).view() == clock_update(old(self).view(), key),
    {
        match self.stack.get_entry(key) {
            Some(entry) => {
                self.stack.replace(key, Entry { visited: true, ..entry });
            },
            None => (),
        }
    }

    /// Forgets `key`.
    pub fn remove(&mut self, key: u64)
        requires
            old(self).wf(),
        ensures
            final(self).wf(),
            final(self).view() == stack_remove(old(self).view(), key),
    {
        let _ = self.stack.remove_key(key);
    }

    /// Forgets every key.
    pub fn clear(&mut self)
        ensures
            final(self).wf(),
            final(self).view() == Seq::<Entry>::empty(),
    {
        self.stack.clear();
    }

    /// Runs the CLOCK scan: rotates visited back entries to the front with
    /// their mark cleared and takes the first unvisited one.
    pub fn evict_one(&mut self) -> (r: Option<u64>)
        requires
            old(self).wf(),
        ensures
            final(self).wf(),
            (final(self).view(), r) == clock_evict(old(self).view()),
    {
        loop
            invariant
                self.wf(),
                clock_evict(self.view()) == clock_evict(old(self).view()),
            decreases count_visited(self.view()), self.view().len(),
        {
            let ghost pre = self.view();
            match self.stack.pop_back() {
                None => {
                    return None;
                },
                Some(entry) => {
                    if !entry.visited {
                        return Some(entry.key);
                    }
                    proof {
                        lemma_clock_rotate_wf(pre);
                        lemma_clock_rotate_decreases(pre);
                    }
                    self.stack.push_front(Entry { visited: false, ..entry });
                    proof {
                        assert(self.view() =~= clock_rotate(pre));
                    }
                },
            }
        }
    }
}

} // verus!
