//! The least-frequently-used eviction stack: an ordered list of frequency
//! buckets, lowest count at the front.  Each bucket orders its keys by
//! recency of arrival in the bucket; eviction takes the oldest key of the
//! lowest bucket.
use vstd::prelude::*;

use crate::keylist::{Entry, KeyList, entry_of, key_index, seq_has_key};
use crate::policy::PaperPolicy;
use crate::stack::lru_stack::spec_ent;

verus! {

/// The mathematical shape of one frequency bucket: its access count and
/// its keys, newest arrival first.
pub struct BucketModel {
    pub count: u64,
    pub keys: Seq<Entry>,
}

/// One frequency bucket.
pub struct LfuBucket {
    /// The access count all keys of the bucket share.
    pub count: u64,
    /// The bucket's keys, newest arrival first.
    pub stack: KeyList,
}

/// The model of a bucket list.
pub open spec fn buckets_model(b: Seq<LfuBucket>) -> Seq<BucketModel> {
    b.map_values(|bucket: LfuBucket| BucketModel { count: bucket.count, keys: bucket.stack.view() })
}

/// Whether some bucket of `m` holds `key`.
pub open spec fn lfu_has_key(m: Seq<BucketModel>, key: u64) -> bool {
    exists|i: int| 0 <= i < m.len() && seq_has_key(m[i].keys, key)
}

/// The index of the bucket of `m` holding `key`; meaningful only where
/// one does.
pub open spec fn lfu_bucket_of(m: Seq<BucketModel>, key: u64) -> int {
    choose|i: int| 0 <= i < m.len() && seq_has_key(m[i].keys, key)
}

/// The number of keys held over all buckets of `m`.
pub open spec fn lfu_total(m: Seq<BucketModel>) -> nat
    decreases m.len(),
{
    if m.len() == 0 {
        0
    } else {
        lfu_total(m.drop_last()) + m.last().keys.len()
    }
}

/// A bucket list is well formed when counts are positive and strictly
/// increase from the front, no bucket is empty, every bucket's keys are
/// unique and no two buckets share a key.
pub open spec fn lfu_wf(m: Seq<BucketModel>) -> bool {
    &&& forall|i: int, j: int| 0 <= i < j < m.len() ==> m[i].count < m[j].count
    &&& forall|i: int| 0 <= i < m.len() ==> (#[trigger] m[i].count) >= 1
    &&& forall|i: int| 0 <= i < m.len() ==> (#[trigger] m[i].keys).len() > 0
    &&& forall|i: int| 0 <= i < m.len() ==> crate::keylist::seq_keys_unique(#[trigger] m[i].keys)
    &&& forall|i: int, j: int, key: u64|
        #![trigger seq_has_key(m[i].keys, key), seq_has_key(m[j].keys, key)]
        0 <= i < m.len() && 0 <= j < m.len() && i != j && seq_has_key(m[i].keys, key)
            ==> !seq_has_key(m[j].keys, key)
}

/// Rewriting one bucket shifts the key total by the change in that
/// bucket's size.
pub proof fn lemma_lfu_total_update(m: Seq<BucketModel>, i: int, b: BucketModel)
    requires
        0 <= i < m.len(),
    ensures
        lfu_total(m.update(i, b)) + m[i].keys.len() == lfu_total(m) + b.keys.len(),
    decreases m.len(),
{
    if i == m.len() - 1 {
        assert(m.update(i, b).drop_last() =~= m.drop_last());
    } else {
        lemma_lfu_total_update(m.drop_last(), i, b);
        assert(m.update(i, b).drop_last() =~= m.drop_last().update(i, b));
    }
}

/// A new bucket adds its size to the key total.
pub proof fn lemma_lfu_total_insert(m: Seq<BucketModel>, i: int, b: BucketModel)
    requires
        0 <= i <= m.len(),
    ensures
        lfu_total(m.insert(i, b)) == lfu_total(m) + b.keys.len(),
    decreases m.len(),
{
    if i == m.len() {
        assert(m.insert(i, b).drop_last() =~= m);
        assert(m.insert(i, b).last() == b);
    } else {
        lemma_lfu_total_insert(m.drop_last(), i, b);
        assert(m.insert(i, b).drop_last() =~= m.drop_last().insert(i, b));
        assert(m.insert(i, b).last() == m.last());
    }
}

/// A dropped bucket takes its size out of the key total.
pub proof fn lemma_lfu_total_remove(m: Seq<BucketModel>, i: int)
    requires
        0 <= i < m.len(),
    ensures
        lfu_total(m.remove(i)) + m[i].keys.len() == lfu_total(m),
    decreases m.len(),
{
    if i == m.len() - 1 {
        assert(m.remove(i) =~= m.drop_last());
    } else {
        lemma_lfu_total_remove(m.drop_last(), i);
        assert(m.remove(i).drop_last() =~= m.drop_last().remove(i));
        assert(m.remove(i).last() == m.last());
    }
}

/// The key total is at least any one bucket's size.
pub proof fn lemma_lfu_total_lower(m: Seq<BucketModel>, i: int)
    requires
        0 <= i < m.len(),
    ensures
        lfu_total(m) >= m[i].keys.len(),
    decreases m.len(),
{
    if i < m.len() - 1 {
        lemma_lfu_total_lower(m.drop_last(), i);
    }
}

/// A bucket list put before another adds its totals.
pub proof fn lemma_lfu_total_push_front(m: Seq<BucketModel>, b: BucketModel)
    ensures
        lfu_total(seq![b] + m) == b.keys.len() + lfu_total(m),
    decreases m.len(),
{
    if m.len() == 0 {
        assert((seq![b] + m).drop_last() =~= Seq::<BucketModel>::empty());
        assert((seq![b] + m).last() == b);
        assert(lfu_total(Seq::<BucketModel>::empty()) == 0);
    } else {
        lemma_lfu_total_push_front(m.drop_last(), b);
        assert((seq![b] + m).drop_last() =~= seq![b] + m.drop_last());
        assert((seq![b] + m).last() == m.last());
    }
}

/// An access keeps the key total: the key only changes buckets.
pub proof fn lemma_lfu_update_total(m: Seq<BucketModel>, key: u64)
    requires
        lfu_wf(m),
    ensures
        lfu_total(lfu_update(m, key)) == lfu_total(m),
{
    if lfu_has_key(m, key) {
        let i = lfu_bucket_of(m, key);
        let c = m[i].count;
        if c != u64::MAX {
            let rest = m[i].keys.remove(key_index(m[i].keys, key));
            assert(rest.len() + 1 == m[i].keys.len());
            if i + 1 < m.len() && m[i + 1].count == c + 1 {
                let grown = BucketModel {
                    count: (c + 1) as u64,
                    keys: seq![spec_ent(key)] + m[i + 1].keys,
                };
                let joined = m.update(i + 1, grown);
                assert(grown.keys.len() == m[i + 1].keys.len() + 1);
                lemma_lfu_total_update(m, i + 1, grown);
                if rest.len() == 0 {
                    lemma_lfu_total_remove(joined, i);
                } else {
                    lemma_lfu_total_update(joined, i, BucketModel { count: c, keys: rest });
                }
            } else {
                if rest.len() == 0 {
                    let lone = BucketModel { count: (c + 1) as u64, keys: seq![spec_ent(key)] };
                    lemma_lfu_total_update(m, i, lone);
                } else {
                    let shrunk = BucketModel { count: c, keys: rest };
                    let lone = BucketModel { count: (c + 1) as u64, keys: seq![spec_ent(key)] };
                    lemma_lfu_total_update(m, i, shrunk);
                    lemma_lfu_total_insert(m.update(i, shrunk), i + 1, lone);
                }
            }
        }
    }
}

/// An access keeps the bucket list well formed.
pub proof fn lemma_lfu_update_wf(m: Seq<BucketModel>, key: u64)
    requires
        lfu_wf(m),
    ensures
        lfu_wf(lfu_update(m, key)),
{
    if !lfu_has_key(m, key) {
        return;
    }
    let i = lfu_bucket_of(m, key);
    let c = m[i].count;
    if c == u64::MAX {
        return;
    }
    let ki = key_index(m[i].keys, key);
    let rest = m[i].keys.remove(ki);
    assert forall|a: int| 0 <= a < rest.len() implies rest[a].key != key by {
        if a < ki {
            assert(rest[a] == m[i].keys[a]);
        } else {
            assert(rest[a] == m[i].keys[a + 1]);
        }
    }
    assert(crate::keylist::seq_keys_unique(rest)) by {
        assert forall|a: int, b: int| 0 <= a < b < rest.len() implies rest[a].key
            != rest[b].key by {
            let a0 = if a < ki {
                a
            } else {
                a + 1
            };
            let b0 = if b < ki {
                b
            } else {
                b + 1
            };
            assert(m[i].keys[a0].key != m[i].keys[b0].key);
        }
    }
    assert(!seq_has_key(rest, key));
    if i + 1 < m.len() && m[i + 1].count == c + 1 {
        let grown = BucketModel { count: (c + 1) as u64, keys: seq![spec_ent(key)] + m[i + 1].keys };
        let joined = m.update(i + 1, grown);
        assert(crate::keylist::seq_keys_unique(grown.keys)) by {
            assert(!seq_has_key(m[i + 1].keys, key));
            assert forall|a: int, b: int| 0 <= a < b < grown.keys.len() implies grown.keys[a].key
                != grown.keys[b].key by {
                if a == 0 {
                    assert(grown.keys[b] == m[i + 1].keys[b - 1]);
                    assert(m[i + 1].keys[b - 1].key != key);
                } else {
                    assert(m[i + 1].keys[a - 1].key != m[i + 1].keys[b - 1].key);
                }
            }
        }
        if rest.len() == 0 {
            let post = joined.remove(i);
            assert(lfu_wf(post)) by {
                assert forall|a: int, b: int, k2: u64|
                    0 <= a < post.len() && 0 <= b < post.len() && a != b && seq_has_key(
                        post[a].keys,
                        k2,
                    ) implies !seq_has_key(post[b].keys, k2) by {
                    if seq_has_key(post[b].keys, k2) {
                        let a0 = if a < i {
                            a
                        } else {
                            a + 1
                        };
                        let b0 = if b < i {
                            b
                        } else {
                            b + 1
                        };
                        assert(post[a] == joined[a0]);
                        assert(post[b] == joined[b0]);
                        if a0 == i + 1 {
                            let w = choose|w: int|
                                0 <= w < post[a].keys.len() && post[a].keys[w].key == k2;
                            if w == 0 {
                                assert(k2 == key);
                                assert(seq_has_key(m[b0].keys, key));
                                lemma_lfu_bucket_unique(m, key, b0);
                            } else {
                                assert(m[i + 1].keys[w - 1].key == k2);
                                assert(seq_has_key(m[i + 1].keys, k2));
                                assert(!seq_has_key(m[b0].keys, k2));
                            }
                        } else if b0 == i + 1 {
                            let w = choose|w: int|
                                0 <= w < post[b].keys.len() && post[b].keys[w].key == k2;
                            if w == 0 {
                                assert(k2 == key);
                                assert(seq_has_key(m[a0].keys, key));
                                lemma_lfu_bucket_unique(m, key, a0);
                            } else {
                                assert(m[i + 1].keys[w - 1].key == k2);
                                assert(seq_has_key(m[i + 1].keys, k2));
                                assert(!seq_has_key(m[a0].keys, k2));
                            }
                        } else {
                            assert(seq_has_key(m[a0].keys, k2));
                            assert(!seq_has_key(m[b0].keys, k2));
                        }
                    }
                }
            }
        } else {
            let post = joined.update(i, BucketModel { count: c, keys: rest });
            assert(lfu_wf(post)) by {
                assert forall|a: int, b: int, k2: u64|
                    0 <= a < post.len() && 0 <= b < post.len() && a != b && seq_has_key(
                        post[a].keys,
                        k2,
                    ) implies !seq_has_key(post[b].keys, k2) by {
                    if seq_has_key(post[b].keys, k2) {
                        if a == i {
                            let w = choose|w: int|
                                0 <= w < rest.len() && rest[w].key == k2;
                            let w0 = if w < ki {
                                w
                            } else {
                                w + 1
                            };
                            assert(m[i].keys[w0].key == k2);
                            assert(seq_has_key(m[i].keys, k2));
                            assert(k2 != key);
                            if b == i + 1 {
                                let v = choose|v: int|
                                    0 <= v < post[b].keys.len() && post[b].keys[v].key == k2;
                                assert(post[b].keys[v] == (seq![spec_ent(key)] + m[i + 1].keys)[v]);
                                assert(m[i + 1].keys[v - 1].key == k2);
                                assert(seq_has_key(m[i + 1].keys, k2));
                                assert(!seq_has_key(m[i + 1].keys, k2));
                            } else {
                                assert(!seq_has_key(m[b].keys, k2));
                            }
                        } else if b == i {
                            assert(seq_has_key(rest, k2));
                            let w = choose|w: int|
                                0 <= w < rest.len() && rest[w].key == k2;
                            let w0 = if w < ki {
                                w
                            } else {
                                w + 1
                            };
                            assert(m[i].keys[w0].key == k2);
                            assert(seq_has_key(m[i].keys, k2));
                            if a == i + 1 {
                                let v = choose|v: int|
                                    0 <= v < post[a].keys.len() && post[a].keys[v].key == k2;
                                if v == 0 {
                                    assert(k2 == key);
                                    assert(!seq_has_key(rest, key));
                                } else {
                                    assert(m[i + 1].keys[v - 1].key == k2);
                                    assert(seq_has_key(m[i + 1].keys, k2));
                                    assert(!seq_has_key(m[i].keys, k2));
                                }
                            } else {
                                assert(!seq_has_key(m[i].keys, k2));
                            }
                        } else if a == i + 1 {
                            let v = choose|v: int|
                                0 <= v < post[a].keys.len() && post[a].keys[v].key == k2;
                            if v == 0 {
                                assert(k2 == key);
                                assert(seq_has_key(m[b].keys, key));
                                lemma_lfu_bucket_unique(m, key, b);
                            } else {
                                assert(m[i + 1].keys[v - 1].key == k2);
                                assert(seq_has_key(m[i + 1].keys, k2));
                                assert(!seq_has_key(m[b].keys, k2));
                            }
                        } else if b == i + 1 {
                            let v = choose|v: int|
                                0 <= v < post[b].keys.len() && post[b].keys[v].key == k2;
                            if v == 0 {
                                assert(k2 == key);
                                assert(seq_has_key(m[a].keys, key));
                                lemma_lfu_bucket_unique(m, key, a);
                            } else {
                                assert(m[i + 1].keys[v - 1].key == k2);
                                assert(seq_has_key(m[i + 1].keys, k2));
                                assert(!seq_has_key(m[a].keys, k2));
                            }
                        } else {
                            assert(seq_has_key(m[a].keys, k2));
                            assert(!seq_has_key(m[b].keys, k2));
                        }
                    }
                }
            }
        }
    } else {
        let lone = BucketModel { count: (c + 1) as u64, keys: seq![spec_ent(key)] };
        if rest.len() == 0 {
            let post = m.update(i, lone);
            assert(lfu_wf(post)) by {
                assert forall|a: int, b: int, k2: u64|
                    0 <= a < post.len() && 0 <= b < post.len() && a != b && seq_has_key(
                        post[a].keys,
                        k2,
                    ) implies !seq_has_key(post[b].keys, k2) by {
                    if seq_has_key(post[b].keys, k2) {
                        if a == i {
                            assert(post[a].keys[0].key == key);
                            let w = choose|w: int|
                                0 <= w < post[a].keys.len() && post[a].keys[w].key == k2;
                            assert(k2 == key);
                            lemma_lfu_bucket_unique(m, key, b);
                        } else if b == i {
                            let w = choose|w: int|
                                0 <= w < post[b].keys.len() && post[b].keys[w].key == k2;
                            assert(k2 == key);
                            lemma_lfu_bucket_unique(m, key, a);
                        } else {
                            assert(!seq_has_key(m[b].keys, k2));
                        }
                    }
                }
            }
        } else {
            let shrunk = BucketModel { count: c, keys: rest };
            let post = m.update(i, shrunk).insert(i + 1, lone);
            assert forall|a: int| 0 <= a < post.len() implies (#[trigger] post[a]).keys.len() > 0
                && post[a].count >= 1 && crate::keylist::seq_keys_unique(post[a].keys) by {
                if a < i {
                    assert(post[a] == m[a]);
                } else if a == i {
                    assert(post[a] == shrunk);
                } else if a == i + 1 {
                    assert(post[a] == lone);
                } else {
                    assert(post[a] == m[a - 1]);
                }
            }
            assert forall|a: int, b: int| 0 <= a < b < post.len() implies post[a].count
                < post[b].count by {
                if b < i {
                    assert(post[a] == m[a] && post[b] == m[b]);
                } else if b == i {
                    assert(post[a] == m[a] && post[b] == shrunk);
                } else if b == i + 1 {
                    // every earlier bucket counts at most `c`
                    if a < i {
                        assert(m[a].count < c);
                    }
                } else {
                    assert(post[b] == m[b - 1]);
                    assert(c < m[b - 1].count);
                    if a == i + 1 {
                        assert(m[b - 1].count != c + 1 || b - 1 != i + 1);
                        if b - 1 == i + 1 {
                        } else {
                            assert(m[i + 1].count < m[b - 1].count);
                            assert(m[i + 1].count != c + 1);
                            assert(m[i + 1].count > c);
                        }
                    } else if a == i {
                        assert(c < m[b - 1].count);
                    } else if a < i {
                        assert(m[a].count < m[b - 1].count);
                    } else {
                        assert(m[a - 1].count < m[b - 1].count);
                    }
                }
            }
            assert forall|a: int, b: int, k2: u64|
                0 <= a < post.len() && 0 <= b < post.len() && a != b && seq_has_key(
                    post[a].keys,
                    k2,
                ) implies !seq_has_key(post[b].keys, k2) by {
                if seq_has_key(post[b].keys, k2) {
                    let oa: int = if a < i {
                        a
                    } else if a == i {
                        i
                    } else if a == i + 1 {
                        -1
                    } else {
                        a - 1
                    };
                    let ob: int = if b < i {
                        b
                    } else if b == i {
                        i
                    } else if b == i + 1 {
                        -1
                    } else {
                        b - 1
                    };
                    if oa == -1 {
                        // bucket `a` is the fresh one holding only `key`
                        let w = choose|w: int|
                            0 <= w < post[a].keys.len() && post[a].keys[w].key == k2;
                        assert(k2 == key);
                        if ob == i {
                            assert(!seq_has_key(rest, key));
                        } else {
                            lemma_lfu_bucket_unique(m, key, ob);
                        }
                    } else if ob == -1 {
                        let w = choose|w: int|
                            0 <= w < post[b].keys.len() && post[b].keys[w].key == k2;
                        assert(k2 == key);
                        if oa == i {
                            assert(seq_has_key(rest, key));
                        } else {
                            assert(seq_has_key(m[oa].keys, key));
                            lemma_lfu_bucket_unique(m, key, oa);
                        }
                    } else {
                        if oa == i {
                            assert(seq_has_key(rest, k2));
                            let w = choose|w: int| 0 <= w < rest.len() && rest[w].key == k2;
                            let w0 = if w < ki {
                                w
                            } else {
                                w + 1
                            };
                            assert(m[i].keys[w0].key == k2);
                            assert(seq_has_key(m[i].keys, k2));
                            assert(!seq_has_key(m[ob].keys, k2));
                        } else if ob == i {
                            assert(seq_has_key(rest, k2));
                            let w = choose|w: int| 0 <= w < rest.len() && rest[w].key == k2;
                            let w0 = if w < ki {
                                w
                            } else {
                                w + 1
                            };
                            assert(m[i].keys[w0].key == k2);
                            assert(seq_has_key(m[i].keys, k2));
                            assert(!seq_has_key(m[oa].keys, k2));
                        } else {
                            assert(seq_has_key(m[oa].keys, k2));
                            assert(!seq_has_key(m[ob].keys, k2));
                        }
                    }
                }
            }
        }
    }
}

/// In a well-formed bucket list, any bucket holding `key` is the bucket
/// `lfu_bucket_of` names.
pub proof fn lemma_lfu_bucket_unique(m: Seq<BucketModel>, key: u64, i: int)
    requires
        lfu_wf(m),
        0 <= i < m.len(),
        seq_has_key(m[i].keys, key),
    ensures
        lfu_bucket_of(m, key) == i,
        lfu_has_key(m, key),
{
    assert(lfu_has_key(m, key));
    let j = lfu_bucket_of(m, key);
    if i != j {
        assert(!seq_has_key(m[j].keys, key));
    }
}

/// The bucket list after an insert of a new key `key`: it arrives with
/// count one, entering the front bucket where that bucket counts one and
/// founding a new front bucket otherwise.  A held key is promoted as by an
/// access.
pub open spec fn lfu_insert(m: Seq<BucketModel>, key: u64) -> Seq<BucketModel> {
    if lfu_has_key(m, key) {
        lfu_update(m, key)
    } else if m.len() > 0 && m[0].count == 1 {
        m.update(0, BucketModel { count: 1, keys: seq![spec_ent(key)] + m[0].keys })
    } else {
        seq![BucketModel { count: 1, keys: seq![spec_ent(key)] }] + m
    }
}

/// The bucket list after an access of `key`: the key leaves its bucket
/// and enters the front of the bucket counting one more, which is created
/// beside it where it does not exist; an emptied bucket disappears.  A key
/// no bucket holds, or one whose count cannot grow, changes nothing.
pub open spec fn lfu_update(m: Seq<BucketModel>, key: u64) -> Seq<BucketModel> {
    if !lfu_has_key(m, key) {
        m
    } else {
        let i = lfu_bucket_of(m, key);
        let c = m[i].count;
        if c == u64::MAX {
            m
        } else {
            let rest = m[i].keys.remove(key_index(m[i].keys, key));
            if i + 1 < m.len() && m[i + 1].count == c + 1 {
                let joined = m.update(
                    i + 1,
                    BucketModel { count: (c + 1) as u64, keys: seq![spec_ent(key)] + m[i + 1].keys },
                );
                if rest.len() == 0 {
                    joined.remove(i)
                } else {
                    joined.update(i, BucketModel { count: c, keys: rest })
                }
            } else {
                if rest.len() == 0 {
                    m.update(i, BucketModel { count: (c + 1) as u64, keys: seq![spec_ent(key)] })
                } else {
                    m.update(i, BucketModel { count: c, keys: rest }).insert(
                        i + 1,
                        BucketModel { count: (c + 1) as u64, keys: seq![spec_ent(key)] },
                    )
                }
            }
        }
    }
}

/// A new key entering the front bucket of count one keeps the list well
/// formed.
pub proof fn lemma_lfu_insert_front_wf(m: Seq<BucketModel>, key: u64)
    requires
        lfu_wf(m),
        !lfu_has_key(m, key),
        m.len() > 0,
        m[0].count == 1,
    ensures
        lfu_wf(m.update(0, BucketModel { count: 1, keys: seq![spec_ent(key)] + m[0].keys })),
{
    let grown = BucketModel { count: 1, keys: seq![spec_ent(key)] + m[0].keys };
    let post = m.update(0, grown);
    assert(!seq_has_key(m[0].keys, key));
    assert(crate::keylist::seq_keys_unique(grown.keys)) by {
        assert forall|a: int, b: int| 0 <= a < b < grown.keys.len() implies grown.keys[a].key
            != grown.keys[b].key by {
            if a == 0 {
                assert(grown.keys[b] == m[0].keys[b - 1]);
                assert(m[0].keys[b - 1].key != key);
            } else {
                assert(m[0].keys[a - 1].key != m[0].keys[b - 1].key);
            }
        }
    }
    assert forall|a: int, b: int, k2: u64|
        0 <= a < post.len() && 0 <= b < post.len() && a != b && seq_has_key(
            post[a].keys,
            k2,
        ) implies !seq_has_key(post[b].keys, k2) by {
        if seq_has_key(post[b].keys, k2) {
            if a == 0 {
                let w = choose|w: int| 0 <= w < post[a].keys.len() && post[a].keys[w].key == k2;
                if w == 0 {
                    assert(k2 == key);
                    assert(seq_has_key(m[b].keys, key));
                    assert(lfu_has_key(m, key));
                } else {
                    assert(m[0].keys[w - 1].key == k2);
                    assert(seq_has_key(m[0].keys, k2));
                    assert(!seq_has_key(m[b].keys, k2));
                }
            } else if b == 0 {
                let w = choose|w: int| 0 <= w < post[b].keys.len() && post[b].keys[w].key == k2;
                if w == 0 {
                    assert(k2 == key);
                    assert(seq_has_key(m[a].keys, key));
                    assert(lfu_has_key(m, key));
                } else {
                    assert(m[0].keys[w - 1].key == k2);
                    assert(seq_has_key(m[0].keys, k2));
                    assert(!seq_has_key(m[a].keys, k2));
                }
            } else {
                assert(!seq_has_key(m[b].keys, k2));
            }
        }
    }
}

/// A new bucket of count one founded at the front keeps the list well
/// formed where no front bucket of count one stands.
pub proof fn lemma_lfu_new_front_wf(m: Seq<BucketModel>, key: u64)
    requires
        lfu_wf(m),
        !lfu_has_key(m, key),
        m.len() == 0 || m[0].count > 1,
    ensures
        lfu_wf(seq![BucketModel { count: 1, keys: seq![spec_ent(key)] }] + m),
{
    let post = seq![BucketModel { count: 1, keys: seq![spec_ent(key)] }] + m;
    assert forall|a: int, b: int| 0 <= a < b < post.len() implies post[a].count
        < post[b].count by {
        if a == 0 {
            assert(post[b] == m[b - 1]);
            if b - 1 > 0 {
                assert(m[0].count < m[b - 1].count);
            }
        } else {
            assert(m[a - 1].count < m[b - 1].count);
        }
    }
    assert forall|a: int, b: int, k2: u64|
        0 <= a < post.len() && 0 <= b < post.len() && a != b && seq_has_key(
            post[a].keys,
            k2,
        ) implies !seq_has_key(post[b].keys, k2) by {
        if seq_has_key(post[b].keys, k2) {
            if a == 0 {
                assert(k2 == key);
                assert(seq_has_key(m[b - 1].keys, key));
                assert(lfu_has_key(m, key));
            } else if b == 0 {
                assert(k2 == key);
                assert(seq_has_key(m[a - 1].keys, key));
                assert(lfu_has_key(m, key));
            } else {
                assert(seq_has_key(m[a - 1].keys, k2));
                assert(!seq_has_key(m[b - 1].keys, k2));
            }
        }
    }
}

/// The bucket list after a removal of `key`: the key leaves its bucket
/// and an emptied bucket disappears.
pub open spec fn lfu_remove(m: Seq<BucketModel>, key: u64) -> Seq<BucketModel> {
    if !lfu_has_key(m, key) {
        m
    } else {
        let i = lfu_bucket_of(m, key);
        let rest = m[i].keys.remove(key_index(m[i].keys, key));
        if rest.len() == 0 {
            m.remove(i)
        } else {
            m.update(i, BucketModel { count: m[i].count, keys: rest })
        }
    }
}

/// A removal keeps the bucket list well formed.
pub proof fn lemma_lfu_remove_wf(m: Seq<BucketModel>, key: u64)
    requires
        lfu_wf(m),
    ensures
        lfu_wf(lfu_remove(m, key)),
{
    if lfu_has_key(m, key) {
        let i = lfu_bucket_of(m, key);
        let ki = key_index(m[i].keys, key);
        let rest = m[i].keys.remove(ki);
        lemma_lfu_shrink_wf(m, i, rest, ki);
    }
}

/// A removal of a held key lowers the key total by one.
pub proof fn lemma_lfu_remove_total(m: Seq<BucketModel>, key: u64)
    requires
        lfu_wf(m),
        lfu_has_key(m, key),
    ensures
        lfu_total(lfu_remove(m, key)) + 1 == lfu_total(m),
{
    let i = lfu_bucket_of(m, key);
    let rest = m[i].keys.remove(key_index(m[i].keys, key));
    if rest.len() == 0 {
        lemma_lfu_total_remove(m, i);
    } else {
        lemma_lfu_total_update(m, i, BucketModel { count: m[i].count, keys: rest });
    }
}

/// Shrinking bucket `i` to `rest` (its keys with position `ki` taken out)
/// and dropping it where it empties keeps the list well formed.
proof fn lemma_lfu_shrink_wf(m: Seq<BucketModel>, i: int, rest: Seq<Entry>, ki: int)
    requires
        lfu_wf(m),
        0 <= i < m.len(),
        0 <= ki < m[i].keys.len(),
        rest == m[i].keys.remove(ki),
    ensures
        rest.len() == 0 ==> lfu_wf(m.remove(i)),
        rest.len() > 0 ==> lfu_wf(m.update(i, BucketModel { count: m[i].count, keys: rest })),
{
    if rest.len() == 0 {
        let post = m.remove(i);
        assert forall|a: int, b: int, k2: u64|
            0 <= a < post.len() && 0 <= b < post.len() && a != b && seq_has_key(
                post[a].keys,
                k2,
            ) implies !seq_has_key(post[b].keys, k2) by {
            let a0 = if a < i {
                a
            } else {
                a + 1
            };
            let b0 = if b < i {
                b
            } else {
                b + 1
            };
            assert(post[a] == m[a0]);
            assert(post[b] == m[b0]);
        }
    } else {
        let post = m.update(i, BucketModel { count: m[i].count, keys: rest });
        assert(crate::keylist::seq_keys_unique(rest)) by {
            assert forall|a: int, b: int| 0 <= a < b < rest.len() implies rest[a].key
                != rest[b].key by {
                let a0 = if a < ki {
                    a
                } else {
                    a + 1
                };
                let b0 = if b < ki {
                    b
                } else {
                    b + 1
                };
                assert(m[i].keys[a0].key != m[i].keys[b0].key);
            }
        }
        assert forall|a: int, b: int, k2: u64|
            0 <= a < post.len() && 0 <= b < post.len() && a != b && seq_has_key(
                post[a].keys,
                k2,
            ) implies !seq_has_key(post[b].keys, k2) by {
            if seq_has_key(post[b].keys, k2) {
                if a == i {
                    let w = choose|w: int| 0 <= w < rest.len() && rest[w].key == k2;
                    let w0 = if w < ki {
                        w
                    } else {
                        w + 1
                    };
                    assert(m[i].keys[w0].key == k2);
                    assert(seq_has_key(m[i].keys, k2));
                    assert(!seq_has_key(m[b].keys, k2));
                } else if b == i {
                    let w = choose|w: int| 0 <= w < rest.len() && rest[w].key == k2;
                    let w0 = if w < ki {
                        w
                    } else {
                        w + 1
                    };
                    assert(m[i].keys[w0].key == k2);
                    assert(seq_has_key(m[i].keys, k2));
                    assert(!seq_has_key(m[a].keys, k2));
                } else {
                    assert(!seq_has_key(m[b].keys, k2));
                }
            }
        }
    }
}

/// An eviction keeps the bucket list well formed.
pub proof fn lemma_lfu_evict_wf(m: Seq<BucketModel>)
    requires
        lfu_wf(m),
    ensures
        lfu_wf(lfu_evict(m).0),
{
    if m.len() > 0 {
        let rest = m[0].keys.drop_last();
        assert(rest =~= m[0].keys.remove(m[0].keys.len() - 1));
        lemma_lfu_shrink_wf(m, 0, rest, m[0].keys.len() - 1);
    }
}

/// An eviction from a non-empty stack lowers the key total by one.
pub proof fn lemma_lfu_evict_total(m: Seq<BucketModel>)
    requires
        lfu_wf(m),
        m.len() > 0,
    ensures
        lfu_total(lfu_evict(m).0) + 1 == lfu_total(m),
{
    let rest = m[0].keys.drop_last();
    if rest.len() == 0 {
        lemma_lfu_total_remove(m, 0);
    } else {
        lemma_lfu_total_update(m, 0, BucketModel { count: m[0].count, keys: rest });
    }
}

/// The bucket list and evicted key of one eviction: the oldest key of the
/// front (lowest-count) bucket leaves, and the bucket disappears where it
/// empties.
pub open spec fn lfu_evict(m: Seq<BucketModel>) -> (Seq<BucketModel>, Option<u64>) {
    if m.len() == 0 {
        (m, None)
    } else {
        let key = m[0].keys.last().key;
        let rest = m[0].keys.drop_last();
        if rest.len() == 0 {
            (m.remove(0), Some(key))
        } else {
            (m.update(0, BucketModel { count: m[0].count, keys: rest }), Some(key))
        }
    }
}

/// The least-frequently-used eviction stack.
pub struct LfuStack {
    /// The frequency buckets, lowest count first.
    pub buckets: Vec<LfuBucket>,
    /// The number of keys held over all buckets.
    pub total: usize,
}

impl LfuStack {
    /// The frequency buckets, lowest count first.
    pub open spec fn view(self) -> Seq<BucketModel> {
        buckets_model(self.buckets@)
    }

    pub open spec fn wf(self) -> bool {
        lfu_wf(self.view()) && self.total == lfu_total(self.view())
    }

    /// Builds an empty stack.
    pub fn new() -> (r: LfuStack)
        ensures
            r.wf(),
            r.view() == Seq::<BucketModel>::empty(),
    {
        let r = LfuStack { buckets: Vec::new(), total: 0 };
        proof {
            assert(r.view() =~= Seq::<BucketModel>::empty());
        }
        r
    }

    /// Returns `true` iff this stack orders under `policy`.
    pub fn is_policy(&self, policy: &PaperPolicy) -> (r: bool)
        ensures
            r == (*policy is Lfu),
    {
        matches!(policy, PaperPolicy::Lfu)
    }

    /// The number of keys held.
    pub fn len(&self) -> (r: usize)
        requires
            self.wf(),
        ensures
            r == lfu_total(self.view()),
    {
        self.total
    }

    /// The bucket holding `key`, or `None` where no bucket does.
    fn bucket_of(&self, key: u64) -> (r: Option<usize>)
        requires
            self.wf(),
        ensures
            match r {
                Some(i) => i < self.view().len() && seq_has_key(self.view()[i as int].keys, key)
                    && i == lfu_bucket_of(self.view(), key) && lfu_has_key(self.view(), key),
                None => !lfu_has_key(self.view(), key),
            },
    {
        let n = self.buckets.len();
        let mut i: usize = 0;
        while i < n
            invariant
                0 <= i <= n,
                n == self.buckets@.len(),
                self.wf(),
                forall|k: int| 0 <= k < i ==> !seq_has_key(self.view()[k].keys, key),
            decreases n - i,
        {
            proof {
                assert(self.view()[i as int].keys == self.buckets@[i as int].stack.view());
            }
            if self.buckets[i].stack.contains(key) {
                proof {
                    lemma_lfu_bucket_unique(self.view(), key, i as int);
                }
                return Some(i);
            }
            i = i + 1;
        }
        None
    }

    /// Returns `true` iff some bucket holds `key`.
    pub fn contains(&self, key: u64) -> (r: bool)
        requires
            self.wf(),
        ensures
            r == lfu_has_key(self.view(), key),
    {
        self.bucket_of(key).is_some()
    }

    /// Admits `key`: a new key arrives with count one; a held key is
    /// promoted as by an access.  A stack already holding the largest
    /// representable number of keys refuses a new one.
    pub fn insert(&mut self, key: u64, _size: u32)
        requires
            old(self).wf(),
        ensures
            final(self).wf(),
            (lfu_has_key(old(self).view(), key) || lfu_total(old(self).view()) < usize::MAX)
                ==> final(self).view() == lfu_insert(old(self).view(), key),
            !(lfu_has_key(old(self).view(), key) || lfu_total(old(self).view()) < usize::MAX)
                ==> final(self).view() == old(self).view(),
    {
        let ghost pre = self.view();
        if self.bucket_of(key).is_some() {
            self.update(key);
            return;
        }
        if self.total == usize::MAX {
            return;
        }
        if self.buckets.len() > 0 && self.buckets[0].count == 1 {
            let mut bucket = self.buckets.remove(0);
            proof {
                assert(bucket.stack.view() == pre[0].keys);
                assert(!seq_has_key(bucket.stack.view(), key));
            }
            bucket.stack.push_front(Entry::of_key(key));
            self.buckets.insert(0, bucket);
            self.total = self.total + 1;
            proof {
                let post = self.view();
                let target = pre.update(
                    0,
                    BucketModel { count: 1, keys: seq![spec_ent(key)] + pre[0].keys },
                );
                assert(post =~= target);
                lemma_lfu_insert_front_wf(pre, key);
                lemma_lfu_total_update(
                    pre,
                    0,
                    BucketModel { count: 1, keys: seq![spec_ent(key)] + pre[0].keys },
                );
            }
        } else {
            let mut stack = KeyList::new();
            stack.push_front(Entry::of_key(key));
            let bucket = LfuBucket { count: 1, stack };
            self.buckets.insert(0, bucket);
            self.total = self.total + 1;
            proof {
                let post = self.view();
                let target = seq![BucketModel { count: 1, keys: seq![spec_ent(key)] }] + pre;
                assert(post =~= target);
                lemma_lfu_new_front_wf(pre, key);
                lemma_lfu_total_push_front(
                    pre,
                    BucketModel { count: 1, keys: seq![spec_ent(key)] },
                );
            }
        }
    }

    /// Records an access of `key`, promoting it to the next count.
    pub fn update(&mut self, key: u64)
        requires
            old(self).wf(),
        ensures
            final(self).wf(),
            final(self).view() == lfu_update(old(self).view(), key),
    {
        let ghost pre = self.view();
        let Some(i) = self.bucket_of(key) else {
            return;
        };
        let c = self.buckets[i].count;
        if c == u64::MAX {
            return;
        }
        let mut bucket = self.buckets.remove(i);
        proof {
            assert(bucket.stack.view() == pre[i as int].keys);
        }
        let removed = bucket.stack.remove_key(key);
        let ghost rest = bucket.stack.view();
        let bucket_empty = bucket.stack.is_empty();
        let merged: bool = if i < self.buckets.len() {
            // after the removal of bucket `i`, the following bucket stands
            // at index `i`
            self.buckets[i].count == c + 1
        } else {
            false
        };
        if merged {
            let mut next = self.buckets.remove(i);
            proof {
                assert(next.stack.view() == pre[i + 1].keys);
                assert(!seq_has_key(next.stack.view(), key));
            }
            next.stack.push_front(Entry::of_key(key));
            self.buckets.insert(i, next);
            if !bucket_empty {
                self.buckets.insert(i, bucket);
            }
            proof {
                let post = self.view();
                let joined = pre.update(
                    i + 1,
                    BucketModel { count: (c + 1) as u64, keys: seq![spec_ent(key)] + pre[i + 1].keys },
                );
                if rest.len() == 0 {
                    assert(post =~= joined.remove(i as int));
                } else {
                    assert(post =~= joined.update(i as int, BucketModel { count: c, keys: rest }));
                }
                lemma_lfu_update_wf(pre, key);
                lemma_lfu_update_total(pre, key);
            }
        } else {
            let mut stack = KeyList::new();
            stack.push_front(Entry::of_key(key));
            let fresh = LfuBucket { count: c + 1, stack };
            self.buckets.insert(i, fresh);
            if !bucket_empty {
                self.buckets.insert(i, bucket);
            }
            proof {
                let post = self.view();
                if rest.len() == 0 {
                    assert(post =~= pre.update(
                        i as int,
                        BucketModel { count: (c + 1) as u64, keys: seq![spec_ent(key)] },
                    ));
                } else {
                    assert(post =~= pre.update(
                        i as int,
                        BucketModel { count: c, keys: rest },
                    ).insert(
                        i + 1,
                        BucketModel { count: (c + 1) as u64, keys: seq![spec_ent(key)] },
                    ));
                }
                lemma_lfu_update_wf(pre, key);
                lemma_lfu_update_total(pre, key);
            }
        }
    }

    /// Forgets `key`.
    pub fn remove(&mut self, key: u64)
        requires
            old(self).wf(),
        ensures
            final(self).wf(),
            final(self).view() == lfu_remove(old(self).view(), key),
    {
        let ghost pre = self.view();
        let Some(i) = self.bucket_of(key) else {
            return;
        };
        let mut bucket = self.buckets.remove(i);
        proof {
            assert(bucket.stack.view() == pre[i as int].keys);
        }
        let _ = bucket.stack.remove_key(key);
        let ghost rest = bucket.stack.view();
        proof {
            lemma_lfu_total_lower(pre, i as int);
        }
        if !bucket.stack.is_empty() {
            self.buckets.insert(i, bucket);
        }
        self.total = self.total - 1;
        proof {
            let post = self.view();
            if rest.len() == 0 {
                assert(post =~= pre.remove(i as int));
            } else {
                assert(post =~= pre.update(
                    i as int,
                    BucketModel { count: pre[i as int].count, keys: rest },
                ));
            }
            lemma_lfu_remove_wf(pre, key);
            lemma_lfu_remove_total(pre, key);
        }
    }

    /// Forgets every key.
    pub fn clear(&mut self)
        ensures
            final(self).wf(),
            final(self).view() == Seq::<BucketModel>::empty(),
    {
        self.buckets.clear();
        self.total = 0;
        proof {
            assert(self.view() =~= Seq::<BucketModel>::empty());
        }
    }

    /// Takes the oldest key of the lowest-count bucket, or `None` from an
    /// empty stack.
    pub fn evict_one(&mut self) -> (r: Option<u64>)
        requires
            old(self).wf(),
        ensures
            final(self).wf(),
            (final(self).view(), r) == lfu_evict(old(self).view()),
    {
        let ghost pre = self.view();
        if self.buckets.len() == 0 {
            return None;
        }
        let mut bucket = self.buckets.remove(0);
        proof {
            assert(bucket.stack.view() == pre[0].keys);
        }
        let entry = match bucket.stack.pop_back() {
            Some(entry) => entry,
            None => {
                // every bucket holds at least one key
                proof {
                    assert(false);
                }
                return None;
            },
        };
        let ghost rest = bucket.stack.view();
        proof {
            lemma_lfu_total_lower(pre, 0);
        }
        if !bucket.stack.is_empty() {
            self.buckets.insert(0, bucket);
        }
        self.total = self.total - 1;
        proof {
            let post = self.view();
            if rest.len() == 0 {
                assert(post =~= pre.remove(0));
            } else {
                assert(post =~= pre.update(0, BucketModel { count: pre[0].count, keys: rest }));
            }
            lemma_lfu_evict_wf(pre);
            lemma_lfu_evict_total(pre);
            assert(self.total == lfu_total(post));
        }
        Some(entry.key)
    }
}

} // verus!
