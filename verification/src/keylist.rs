//! An ordered list of keyed entries, the backbone of every eviction stack.
//!
//! The list keeps at most one entry per hashed key.  Its view is the
//! sequence of entries from front (index `0`) to back; eviction stacks
//! insert at the front and take from the back or the front as their policy
//! orders.
use vstd::prelude::*;

verus! {

/// One entry of an eviction structure: the hashed key and the per-policy
/// attributes the stacks track for it.  Policies that do not use an
/// attribute keep it at its zero value.
#[derive(Clone, Copy, Debug, PartialEq, Eq, Structural)]
pub struct Entry {
    /// The hashed key the entry orders.
    pub key: u64,
    /// The object size, for the stacks that account bytes per queue.
    pub size: u32,
    /// The visited flag of the CLOCK and SIEVE policies.
    pub visited: bool,
    /// The capped frequency count of the S3-FIFO policy.
    pub freq: u8,
}

impl Entry {
    /// An entry carrying only a key.
    pub fn of_key(key: u64) -> (r: Entry)
        ensures
            r == (Entry { key, size: 0, visited: false, freq: 0 }),
    {
        Entry { key, size: 0, visited: false, freq: 0 }
    }

    /// An entry carrying a key and a size.
    pub fn sized(key: u64, size: u32) -> (r: Entry)
        ensures
            r == (Entry { key, size, visited: false, freq: 0 }),
    {
        Entry { key, size, visited: false, freq: 0 }
    }
}

/// Whether `s` holds an entry for `key`.
pub open spec fn seq_has_key(s: Seq<Entry>, key: u64) -> bool {
    exists|i: int| 0 <= i < s.len() && s[i].key == key
}

/// Whether no two entries of `s` share a key.
pub open spec fn seq_keys_unique(s: Seq<Entry>) -> bool {
    forall|i: int, j: int| 0 <= i < j < s.len() ==> s[i].key != s[j].key
}

/// The index of the entry for `key` in `s`; meaningful only where `s`
/// holds the key.
pub open spec fn key_index(s: Seq<Entry>, key: u64) -> int {
    choose|i: int| 0 <= i < s.len() && s[i].key == key
}

/// The entry for `key` in `s`; meaningful only where `s` holds the key.
pub open spec fn entry_of(s: Seq<Entry>, key: u64) -> Entry {
    s[key_index(s, key)]
}

/// In a list without repeated keys, any position holding `key` is the
/// position `key_index` names.
pub proof fn lemma_key_index_unique(s: Seq<Entry>, key: u64, i: int)
    requires
        seq_keys_unique(s),
        0 <= i < s.len(),
        s[i].key == key,
    ensures
        key_index(s, key) == i,
        seq_has_key(s, key),
{
    assert(seq_has_key(s, key));
    let j = key_index(s, key);
    if i < j {
        assert(s[i].key != s[j].key);
    } else if j < i {
        assert(s[j].key != s[i].key);
    }
}

/// The sum of the sizes carried by the entries of `v`.
pub open spec fn size_sum(v: Seq<Entry>) -> nat
    decreases v.len(),
{
    if v.len() == 0 {
        0
    } else {
        size_sum(v.drop_last()) + v.last().size as nat
    }
}

/// The sum of the frequency counts carried by the entries of `v`.
pub open spec fn freq_sum(v: Seq<Entry>) -> nat
    decreases v.len(),
{
    if v.len() == 0 {
        0
    } else {
        freq_sum(v.drop_last()) + v.last().freq as nat
    }
}

/// Membership in a list with one entry taken out.
pub proof fn lemma_has_key_remove(v: Seq<Entry>, i: int, key: u64)
    requires
        seq_keys_unique(v),
        0 <= i < v.len(),
    ensures
        seq_has_key(v.remove(i), key) <==> (seq_has_key(v, key) && v[i].key != key),
{
    let r = v.remove(i);
    if seq_has_key(r, key) {
        let w = choose|w: int| 0 <= w < r.len() && r[w].key == key;
        let w0 = if w < i {
            w
        } else {
            w + 1
        };
        assert(v[w0].key == key);
        assert(seq_has_key(v, key));
        if v[i].key == key {
            lemma_key_index_unique(v, key, w0);
            lemma_key_index_unique(v, key, i);
        }
    }
    if seq_has_key(v, key) && v[i].key != key {
        let w = choose|w: int| 0 <= w < v.len() && v[w].key == key;
        let w1 = if w < i {
            w
        } else {
            w - 1
        };
        assert(r[w1].key == key);
        assert(seq_has_key(r, key));
    }
}

/// Membership in a list with an entry put at the front.
pub proof fn lemma_has_key_push(e: Entry, v: Seq<Entry>, key: u64)
    ensures
        seq_has_key(seq![e] + v, key) <==> (e.key == key || seq_has_key(v, key)),
{
    let r = seq![e] + v;
    if seq_has_key(r, key) {
        let w = choose|w: int| 0 <= w < r.len() && r[w].key == key;
        if w > 0 {
            assert(v[w - 1].key == key);
            assert(seq_has_key(v, key));
        }
    }
    if e.key == key {
        assert(r[0].key == key);
        assert(seq_has_key(r, key));
    }
    if seq_has_key(v, key) {
        let w = choose|w: int| 0 <= w < v.len() && v[w].key == key;
        assert(r[w + 1].key == key);
        assert(seq_has_key(r, key));
    }
}

/// Membership is unchanged by rewriting an entry to one of the same key.
pub proof fn lemma_has_key_update(v: Seq<Entry>, i: int, e: Entry, key: u64)
    requires
        0 <= i < v.len(),
        e.key == v[i].key,
    ensures
        seq_has_key(v.update(i, e), key) <==> seq_has_key(v, key),
{
    let r = v.update(i, e);
    if seq_has_key(r, key) {
        let w = choose|w: int| 0 <= w < r.len() && r[w].key == key;
        assert(v[w].key == key);
        assert(seq_has_key(v, key));
    }
    if seq_has_key(v, key) {
        let w = choose|w: int| 0 <= w < v.len() && v[w].key == key;
        assert(r[w].key == key);
        assert(seq_has_key(r, key));
    }
}

/// Taking one entry out lowers the size sum by that entry's size.
pub proof fn lemma_size_sum_remove(v: Seq<Entry>, i: int)
    requires
        0 <= i < v.len(),
    ensures
        size_sum(v.remove(i)) + v[i].size == size_sum(v),
    decreases v.len(),
{
    if i == v.len() - 1 {
        assert(v.remove(i) =~= v.drop_last());
    } else {
        lemma_size_sum_remove(v.drop_last(), i);
        assert(v.remove(i).drop_last() =~= v.drop_last().remove(i));
        assert(v.remove(i).last() == v.last());
    }
}

/// An entry put at the front adds its size to the size sum.
pub proof fn lemma_size_sum_push(e: Entry, v: Seq<Entry>)
    ensures
        size_sum(seq![e] + v) == e.size + size_sum(v),
    decreases v.len(),
{
    if v.len() == 0 {
        assert((seq![e] + v).drop_last() =~= Seq::<Entry>::empty());
        assert((seq![e] + v).last() == e);
        assert(size_sum(Seq::<Entry>::empty()) == 0);
        assert(size_sum(seq![e] + v) == size_sum((seq![e] + v).drop_last()) + (seq![e]
            + v).last().size as nat);
    } else {
        lemma_size_sum_push(e, v.drop_last());
        assert((seq![e] + v).drop_last() =~= seq![e] + v.drop_last());
        assert((seq![e] + v).last() == v.last());
        assert(size_sum(seq![e] + v) == size_sum(seq![e] + v.drop_last()) + v.last().size as nat);
        assert(size_sum(v) == size_sum(v.drop_last()) + v.last().size as nat);
    }
}

/// Rewriting one entry shifts the size sum by the change in its size.
pub proof fn lemma_size_sum_update(v: Seq<Entry>, i: int, e: Entry)
    requires
        0 <= i < v.len(),
    ensures
        size_sum(v.update(i, e)) + v[i].size == size_sum(v) + e.size,
    decreases v.len(),
{
    if i == v.len() - 1 {
        assert(v.update(i, e).drop_last() =~= v.drop_last());
    } else {
        lemma_size_sum_update(v.drop_last(), i, e);
        assert(v.update(i, e).drop_last() =~= v.drop_last().update(i, e));
        assert(v.update(i, e).last() == v.last());
    }
}

/// The size sum bounds any one entry's size.
pub proof fn lemma_size_sum_lower(v: Seq<Entry>, i: int)
    requires
        0 <= i < v.len(),
    ensures
        size_sum(v) >= v[i].size,
    decreases v.len(),
{
    if i < v.len() - 1 {
        lemma_size_sum_lower(v.drop_last(), i);
    }
}

/// Taking one entry out lowers the frequency sum by that entry's count.
pub proof fn lemma_freq_sum_remove(v: Seq<Entry>, i: int)
    requires
        0 <= i < v.len(),
    ensures
        freq_sum(v.remove(i)) + v[i].freq == freq_sum(v),
    decreases v.len(),
{
    if i == v.len() - 1 {
        assert(v.remove(i) =~= v.drop_last());
    } else {
        lemma_freq_sum_remove(v.drop_last(), i);
        assert(v.remove(i).drop_last() =~= v.drop_last().remove(i));
        assert(v.remove(i).last() == v.last());
    }
}

/// An entry put at the front adds its count to the frequency sum.
pub proof fn lemma_freq_sum_push(e: Entry, v: Seq<Entry>)
    ensures
        freq_sum(seq![e] + v) == e.freq + freq_sum(v),
    decreases v.len(),
{
    if v.len() == 0 {
        assert((seq![e] + v).drop_last() =~= Seq::<Entry>::empty());
        assert((seq![e] + v).last() == e);
        assert(freq_sum(Seq::<Entry>::empty()) == 0);
        assert(freq_sum(seq![e] + v) == freq_sum((seq![e] + v).drop_last()) + (seq![e]
            + v).last().freq as nat);
    } else {
        lemma_freq_sum_push(e, v.drop_last());
        assert((seq![e] + v).drop_last() =~= seq![e] + v.drop_last());
        assert((seq![e] + v).last() == v.last());
        assert(freq_sum(seq![e] + v) == freq_sum(seq![e] + v.drop_last()) + v.last().freq as nat);
        assert(freq_sum(v) == freq_sum(v.drop_last()) + v.last().freq as nat);
    }
}

/// An ordered list of keyed entries with at most one entry per key.
pub struct KeyList {
    pub items: Vec<Entry>,
}

impl KeyList {
    /// The entries from front to back.
    pub open spec fn view(self) -> Seq<Entry> {
        self.items@
    }

    /// The list is well formed when no two entries share a key.
    pub open spec fn wf(self) -> bool {
        seq_keys_unique(self.view())
    }

    /// Builds an empty list.
    pub fn new() -> (r: KeyList)
        ensures
            r.wf(),
            r.view() == Seq::<Entry>::empty(),
    {
        KeyList { items: Vec::new() }
    }

    /// The number of entries.
    pub fn len(&self) -> (r: usize)
        ensures
            r == self.view().len(),
    {
        self.items.len()
    }

    /// Returns `true` iff the list holds no entry.
    pub fn is_empty(&self) -> (r: bool)
        ensures
            r == (self.view().len() == 0),
    {
        self.items.len() == 0
    }

    /// The position of the entry for `key`, or `None` where no entry
    /// carries it.
    fn position_of(&self, key: u64) -> (r: Option<usize>)
        requires
            self.wf(),
        ensures
            match r {
                Some(i) => i < self.view().len() && self.view()[i as int].key == key && i
                    == key_index(self.view(), key) && seq_has_key(self.view(), key),
                None => !seq_has_key(self.view(), key),
            },
    {
        let n = self.items.len();
        let mut i: usize = 0;
        while i < n
            invariant
                0 <= i <= n,
                n == self.view().len(),
                self.wf(),
                forall|k: int| 0 <= k < i ==> self.view()[k].key != key,
            decreases n - i,
        {
            if self.items[i].key == key {
                proof {
                    lemma_key_index_unique(self.view(), key, i as int);
                }
                return Some(i);
            }
            i = i + 1;
        }
        None
    }

    /// Returns `true` iff the list holds an entry for `key`.
    pub fn contains(&self, key: u64) -> (r: bool)
        requires
            self.wf(),
        ensures
            r == seq_has_key(self.view(), key),
    {
        self.position_of(key).is_some()
    }

    /// The entry for `key`, or `None` where no entry carries it.
    pub fn get_entry(&self, key: u64) -> (r: Option<Entry>)
        requires
            self.wf(),
        ensures
            match r {
                Some(e) => seq_has_key(self.view(), key) && e == entry_of(self.view(), key),
                None => !seq_has_key(self.view(), key),
            },
    {
        match self.position_of(key) {
            Some(i) => Some(self.items[i]),
            None => None,
        }
    }

    /// Puts `entry` at the front.  The key must not already stand in the
    /// list.
    pub fn push_front(&mut self, entry: Entry)
        requires
            old(self).wf(),
            !seq_has_key(old(self).view(), entry.key),
        ensures
            final(self).wf(),
            final(self).view() == seq![entry] + old(self).view(),
    {
        self.items.insert(0, entry);
        proof {
            assert(self.view() =~= seq![entry] + old(self).view());
            assert forall|i: int, j: int|
                0 <= i < j < self.view().len() implies self.view()[i].key
                != self.view()[j].key by {
                if i == 0 {
                    assert(old(self).view()[j - 1].key != entry.key);
                }
            }
        }
    }

    /// Takes the back entry, or `None` from an empty list.
    pub fn pop_back(&mut self) -> (r: Option<Entry>)
        requires
            old(self).wf(),
        ensures
            final(self).wf(),
            match r {
                Some(e) => old(self).view().len() > 0 && e == old(self).view().last() && final(self).view() == old(self).view().drop_last(),
                None => old(self).view().len() == 0 && *final(self) == *old(self),
            },
    {
        if self.items.len() == 0 {
            return None;
        }
        let r = self.items.pop();
        proof {
            assert(self.view() =~= old(self).view().drop_last());
        }
        r
    }

    /// Takes the front entry, or `None` from an empty list.
    pub fn pop_front(&mut self) -> (r: Option<Entry>)
        requires
            old(self).wf(),
        ensures
            final(self).wf(),
            match r {
                Some(e) => old(self).view().len() > 0 && e == old(self).view()[0] && final(self).view() == old(self).view().drop_first(),
                None => old(self).view().len() == 0 && *final(self) == *old(self),
            },
    {
        if self.items.len() == 0 {
            return None;
        }
        let e = self.items.remove(0);
        proof {
            assert(self.view() =~= old(self).view().drop_first());
        }
        Some(e)
    }

    /// Removes the entry for `key` and returns it, or returns `None`
    /// leaving the list as it stands.
    pub fn remove_key(&mut self, key: u64) -> (r: Option<Entry>)
        requires
            old(self).wf(),
        ensures
            final(self).wf(),
            match r {
                Some(e) => {
                    &&& seq_has_key(old(self).view(), key)
                    &&& e == entry_of(old(self).view(), key)
                    &&& final(self).view() == old(self).view().remove(
                        key_index(old(self).view(), key),
                    )
                },
                None => !seq_has_key(old(self).view(), key) && *final(self) == *old(self),
            },
    {
        match self.position_of(key) {
            Some(i) => {
                let e = self.items.remove(i);
                proof {
                    assert(self.view() =~= old(self).view().remove(i as int));
                }
                Some(e)
            },
            None => None,
        }
    }

    /// Moves the entry for `key` to the front; a key the list does not
    /// hold leaves it as it stands.
    pub fn move_front(&mut self, key: u64)
        requires
            old(self).wf(),
        ensures
            final(self).wf(),
            seq_has_key(old(self).view(), key) ==> final(self).view() == seq![
                entry_of(old(self).view(), key),
            ] + old(self).view().remove(key_index(old(self).view(), key)),
            !seq_has_key(old(self).view(), key) ==> final(self).view() == old(self).view(),
    {
        match self.remove_key(key) {
            Some(e) => {
                self.push_front(e);
            },
            None => (),
        }
    }

    /// Rewrites the entry for `key` to `entry`, which must carry the same
    /// key; a key the list does not hold leaves it as it stands.
    pub fn replace(&mut self, key: u64, entry: Entry)
        requires
            old(self).wf(),
            entry.key == key,
        ensures
            final(self).wf(),
            seq_has_key(old(self).view(), key) ==> final(self).view() == old(self).view().update(
                key_index(old(self).view(), key),
                entry,
            ),
            !seq_has_key(old(self).view(), key) ==> final(self).view() == old(self).view(),
    {
        match self.position_of(key) {
            Some(i) => {
                self.items.set(i, entry);
                proof {
                    let v0 = old(self).view();
                    let v1 = self.view();
                    assert(v1 =~= v0.update(key_index(v0, key), entry));
                    assert forall|a: int, b: int| 0 <= a < b < v1.len() implies v1[a].key
                        != v1[b].key by {
                        assert(v0[a].key != v0[b].key);
                    }
                }
            },
            None => (),
        }
    }

    /// The entry standing just before the one for `key` (toward the
    /// front), or `None` where the entry is at the front or the key is not
    /// held.
    pub fn before_key(&self, key: u64) -> (r: Option<Entry>)
        requires
            self.wf(),
        ensures
            match r {
                Some(e) => seq_has_key(self.view(), key) && key_index(self.view(), key) > 0 && e
                    == self.view()[key_index(self.view(), key) - 1],
                None => !seq_has_key(self.view(), key) || key_index(self.view(), key) == 0,
            },
    {
        match self.position_of(key) {
            Some(i) => {
                if i > 0 {
                    Some(self.items[i - 1])
                } else {
                    None
                }
            },
            None => None,
        }
    }

    /// A copy of the back entry, or `None` from an empty list.
    pub fn back(&self) -> (r: Option<Entry>)
        ensures
            match r {
                Some(e) => self.view().len() > 0 && e == self.view().last(),
                None => self.view().len() == 0,
            },
    {
        let n = self.items.len();
        if n == 0 {
            None
        } else {
            Some(self.items[n - 1])
        }
    }

    /// Removes every entry.
    pub fn clear(&mut self)
        ensures
            final(self).wf(),
            final(self).view() == Seq::<Entry>::empty(),
    {
        self.items.clear();
    }
}

} // verus!
