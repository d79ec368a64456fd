//! The time-ordered expiry index: which hashed key expires at which
//! instant, with efficient access to the earliest entry.  At most one key
//! is remembered per instant; a later entry for the same instant replaces
//! the earlier, as an ordered map's insert overwrites.
use vstd::prelude::*;

use crate::object::ExpireTime;

verus! {

/// One scheduled expiry: a hashed key and its expiry instant in
/// milliseconds.
#[derive(Clone, Copy, Debug, PartialEq, Eq, Structural)]
pub struct Expiry {
    pub key: u64,
    pub timestamp: u64,
}

impl Expiry {
    /// Builds the scheduled expiry of `key` at `timestamp`, or `None`
    /// where no instant is given.
    pub fn new(key: u64, timestamp: Option<u64>) -> (r: Option<Expiry>)
        ensures
            match timestamp {
                Some(t) => r == Some(Expiry { key, timestamp: t }),
                None => r is None,
            },
    {
        match timestamp {
            Some(timestamp) => Some(Expiry { key, timestamp }),
            None => None,
        }
    }
}

/// Whether the scheduled expiries stand in strictly increasing instant
/// order.
pub open spec fn expiries_sorted(s: Seq<Expiry>) -> bool {
    forall|i: int, j: int| 0 <= i < j < s.len() ==> s[i].timestamp < s[j].timestamp
}

/// Whether some entry of `s` is scheduled at `t`.
pub open spec fn has_timestamp(s: Seq<Expiry>, t: u64) -> bool {
    exists|i: int| 0 <= i < s.len() && s[i].timestamp == t
}

/// The position scheduled at `t`; meaningful only where one is.
pub open spec fn timestamp_index(s: Seq<Expiry>, t: u64) -> int {
    choose|i: int| 0 <= i < s.len() && s[i].timestamp == t
}

/// The scheduled expiries after `key` is scheduled at `expiry`: no
/// instant schedules nothing, a taken instant forgets the key previously
/// scheduled there, and a fresh instant enters at its sorted position.
pub open spec fn spec_expiries_insert(v: Seq<Expiry>, key: u64, expiry: ExpireTime) -> Seq<Expiry> {
    match expiry {
        None => v,
        Some(t) => if has_timestamp(v, t) {
            v.update(timestamp_index(v, t), Expiry { key, timestamp: t })
        } else {
            v.insert(position_of_insert(v, t), Expiry { key, timestamp: t })
        },
    }
}

/// The scheduled expiries after the expiry of `key` at `expiry` is
/// forgotten: nothing happens without an instant or where another key is
/// scheduled there.
pub open spec fn spec_expiries_remove(v: Seq<Expiry>, key: u64, expiry: ExpireTime) -> Seq<Expiry> {
    match expiry {
        None => v,
        Some(t) => if has_timestamp(v, t) && v[timestamp_index(v, t)].key == key {
            v.remove(timestamp_index(v, t))
        } else {
            v
        },
    }
}

/// The time-ordered expiry index.
pub struct Expiries {
    pub entries: Vec<Expiry>,
}

impl Expiries {
    /// The scheduled expiries, earliest first.
    pub open spec fn view(self) -> Seq<Expiry> {
        self.entries@
    }

    pub open spec fn wf(self) -> bool {
        expiries_sorted(self.view())
    }

    /// Builds an empty index.
    pub fn new() -> (r: Expiries)
        ensures
            r.wf(),
            r.view() == Seq::<Expiry>::empty(),
    {
        Expiries { entries: Vec::new() }
    }

    /// The number of scheduled expiries.
    pub fn len(&self) -> (r: usize)
        ensures
            r == self.view().len(),
    {
        self.entries.len()
    }

    /// The position scheduled at `t`, or of the first later entry, or the
    /// end.
    fn position_for(&self, t: u64) -> (r: usize)
        requires
            self.wf(),
        ensures
            r <= self.view().len(),
            forall|i: int| 0 <= i < r ==> self.view()[i].timestamp < t,
            forall|i: int| r <= i < self.view().len() ==> self.view()[i].timestamp >= t,
    {
        let n = self.entries.len();
        let mut i: usize = 0;
        while i < n
            invariant
                0 <= i <= n,
                n == self.view().len(),
                self.wf(),
                forall|k: int| 0 <= k < i ==> self.view()[k].timestamp < t,
            decreases n - i,
        {
            if self.entries[i].timestamp >= t {
                return i;
            }
            i = i + 1;
        }
        n
    }

    /// Schedules `key` at `expiry`; no instant schedules nothing, and an
    /// instant already taken forgets the key previously scheduled there.
    pub fn insert(&mut self, key: u64, expiry: ExpireTime)
        requires
            old(self).wf(),
        ensures
            final(self).wf(),
            final(self).view() == spec_expiries_insert(old(self).view(), key, expiry),
    {
        let Some(t) = expiry else {
            return;
        };
        let ghost pre = self.view();
        let pos = self.position_for(t);
        if pos < self.entries.len() && self.entries[pos].timestamp == t {
            self.entries.set(pos, Expiry { key, timestamp: t });
            proof {
                assert(pre[pos as int].timestamp == t);
                assert(has_timestamp(pre, t));
                lemma_timestamp_index_unique(pre, t, pos as int);
                assert(self.view() =~= pre.update(pos as int, Expiry { key, timestamp: t }));
                assert forall|a: int, b: int|
                    0 <= a < b < self.view().len() implies self.view()[a].timestamp
                    < self.view()[b].timestamp by {
                    assert(pre[a].timestamp < pre[b].timestamp);
                }
            }
        } else {
            self.entries.insert(pos, Expiry { key, timestamp: t });
            proof {
                assert(!has_timestamp(pre, t)) by {
                    if has_timestamp(pre, t) {
                        let w = timestamp_index(pre, t);
                        if w < pos {
                        } else {
                            assert(pre[w].timestamp >= t);
                            assert(w >= pos);
                            if w > pos as int {
                                assert(pre[pos as int].timestamp < pre[w].timestamp);
                                assert(pre[pos as int].timestamp >= t);
                            }
                        }
                    }
                }
                assert(pos as int == position_of_insert(pre, t)) by {
                    lemma_position_of_insert(pre, t, pos as int);
                }
                assert forall|a: int, b: int|
                    0 <= a < b < self.view().len() implies self.view()[a].timestamp
                    < self.view()[b].timestamp by {
                    let v = self.view();
                    let a0 = if a < pos {
                        a
                    } else {
                        a - 1
                    };
                    let b0 = if b < pos {
                        b
                    } else {
                        b - 1
                    };
                    if a == pos {
                        assert(v[b] == pre[b - 1]);
                        assert(pre[b - 1].timestamp >= t);
                        assert(pre[b - 1].timestamp != t);
                    } else if b == pos {
                        assert(v[a] == pre[a]);
                        assert(pre[a].timestamp < t);
                    } else {
                        assert(v[a] == pre[a0] && v[b] == pre[b0]);
                        assert(pre[a0].timestamp < pre[b0].timestamp);
                    }
                }
            }
        }
    }

    /// Forgets the expiry of `key` scheduled at `expiry`; nothing happens
    /// where no instant is given or another key is scheduled there.
    pub fn remove(&mut self, key: u64, expiry: ExpireTime)
        requires
            old(self).wf(),
        ensures
            final(self).wf(),
            final(self).view() == spec_expiries_remove(old(self).view(), key, expiry),
    {
        let Some(t) = expiry else {
            return;
        };
        let ghost pre = self.view();
        let pos = self.position_for(t);
        if pos < self.entries.len() && self.entries[pos].timestamp == t && self.entries[pos].key
            == key {
            proof {
                assert(pre[pos as int].timestamp == t);
                assert(has_timestamp(pre, t));
                lemma_timestamp_index_unique(pre, t, pos as int);
            }
            let _ = self.entries.remove(pos);
            proof {
                assert(self.view() =~= pre.remove(pos as int));
                assert forall|a: int, b: int|
                    0 <= a < b < self.view().len() implies self.view()[a].timestamp
                    < self.view()[b].timestamp by {
                    let a0 = if a < pos {
                        a
                    } else {
                        a + 1
                    };
                    let b0 = if b < pos {
                        b
                    } else {
                        b + 1
                    };
                    assert(pre[a0].timestamp < pre[b0].timestamp);
                }
            }
        } else {
            proof {
                if has_timestamp(pre, t) {
                    let w = timestamp_index(pre, t);
                    lemma_timestamp_index_unique(pre, t, w);
                    if w < pos {
                        assert(pre[w].timestamp < t);
                    } else if w > pos as int {
                        if pos < pre.len() {
                            assert(pre[pos as int].timestamp >= t);
                            assert(pre[pos as int].timestamp < pre[w].timestamp);
                        }
                    }
                }
            }
        }
    }

    /// Takes the earliest scheduled key where its instant has passed.
    pub fn pop_expired(&mut self, now: u64) -> (r: Option<u64>)
        requires
            old(self).wf(),
        ensures
            final(self).wf(),
            match r {
                Some(key) => {
                    &&& old(self).view().len() > 0
                    &&& old(self).view()[0].timestamp <= now
                    &&& key == old(self).view()[0].key
                    &&& final(self).view() == old(self).view().drop_first()
                },
                None => (old(self).view().len() == 0 || old(self).view()[0].timestamp > now)
                    && *final(self) == *old(self),
            },
    {
        if self.entries.len() == 0 {
            return None;
        }
        if self.entries[0].timestamp > now {
            return None;
        }
        let entry = self.entries.remove(0);
        proof {
            assert(self.view() =~= old(self).view().drop_first());
            assert forall|a: int, b: int|
                0 <= a < b < self.view().len() implies self.view()[a].timestamp
                < self.view()[b].timestamp by {
                assert(old(self).view()[a + 1].timestamp < old(self).view()[b + 1].timestamp);
            }
        }
        Some(entry.key)
    }

    /// Whether the earliest scheduled expiry falls within `ttl` seconds
    /// of `now`.
    pub fn has_within(&self, ttl: u32, now: u64) -> (r: bool)
        ensures
            r == (self.view().len() > 0 && self.view()[0].timestamp <= crate::object::spec_saturating_instant(now, ttl)),
    {
        if self.entries.len() == 0 {
            return false;
        }
        self.entries[0].timestamp <= crate::object::get_expiry_from_ttl(ttl, now)
    }

    /// Forgets every scheduled expiry.
    pub fn clear(&mut self)
        ensures
            final(self).wf(),
            final(self).view() == Seq::<Expiry>::empty(),
    {
        self.entries.clear();
    }
}

/// The position a new entry at `t` takes in the sorted order: before the
/// first entry scheduled at `t` or later.
pub open spec fn position_of_insert(s: Seq<Expiry>, t: u64) -> int
    decreases s.len(),
{
    if s.len() == 0 {
        0
    } else if s[0].timestamp >= t {
        0
    } else {
        1 + position_of_insert(s.drop_first(), t)
    }
}

/// Any position splitting the sorted order at `t` is the one
/// `position_of_insert` names.
pub proof fn lemma_position_of_insert(s: Seq<Expiry>, t: u64, r: int)
    requires
        0 <= r <= s.len(),
        forall|i: int| 0 <= i < r ==> s[i].timestamp < t,
        forall|i: int| r <= i < s.len() ==> s[i].timestamp >= t,
    ensures
        position_of_insert(s, t) == r,
    decreases s.len(),
{
    if r == 0 {
        if s.len() > 0 {
            assert(s[0].timestamp >= t);
        }
    } else {
        assert(s[0].timestamp < t);
        lemma_position_of_insert(s.drop_first(), t, r - 1);
    }
}

/// In a strictly sorted order, any position scheduled at `t` is the one
/// `timestamp_index` names.
pub proof fn lemma_timestamp_index_unique(s: Seq<Expiry>, t: u64, i: int)
    requires
        expiries_sorted(s),
        0 <= i < s.len(),
        s[i].timestamp == t,
    ensures
        timestamp_index(s, t) == i,
        has_timestamp(s, t),
{
    assert(has_timestamp(s, t));
    let j = timestamp_index(s, t);
    if i < j {
        assert(s[i].timestamp < s[j].timestamp);
    } else if j < i {
        assert(s[j].timestamp < s[i].timestamp);
    }
}

} // verus!
