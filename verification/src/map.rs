//! The concurrent object map behind trusted contracts, the sum of base
//! sizes its accounting invariant speaks of, and the centralized removal
//! path.
use vstd::prelude::*;

use std::hash::RandomState;

use dashmap::DashMap;

use crate::HashedKey;
use crate::error::CacheError;
use crate::object::Object;
use crate::overhead::{base_size, spec_base_size};
use crate::status::CacheStatus;

verus! {

#[verifier::external_type_specification]
#[verifier::external_body]
#[verifier::reject_recursive_types(K)]
#[verifier::reject_recursive_types(V)]
#[verifier::reject_recursive_types(S)]
pub struct ExDashMap<K, V, S>(DashMap<K, V, S>);

/// What the object map holds: each hashed key's object.
pub uninterp spec fn object_map_view(m: DashMap<u64, Object, RandomState>) -> Map<u64, Object>;

/// The view of a map holding nothing.
pub open spec fn empty_object_map() -> Map<u64, Object> {
    Map::empty()
}

/// Relies on dashmap's `DashMap::new`: an empty map.
#[verifier::external_body]
pub fn new_object_map() -> (r: DashMap<u64, Object, RandomState>)
    ensures
        object_map_view(r) == empty_object_map() && object_map_view(r).dom().finite(),
{
    DashMap::new()
}

/// Relies on dashmap's `DashMap::len`: the number of entries over all
/// shards.
#[verifier::external_body]
pub fn map_len(m: &DashMap<u64, Object, RandomState>) -> (r: usize)
    ensures
        r == object_map_view(*m).len(),
{
    m.len()
}

/// Relies on dashmap's `DashMap::get`: the entry under `key`, handed out
/// as a fresh handle to the same shared value.
#[verifier::external_body]
pub fn map_get(m: &DashMap<u64, Object, RandomState>, key: u64) -> (r: Option<Object>)
    ensures
        match r {
            Some(o) => object_map_view(*m).contains_key(key) && o == object_map_view(*m)[key],
            None => !object_map_view(*m).contains_key(key),
        },
{
    match m.get(&key) {
        Some(entry) => Some(entry.value().share()),
        None => None,
    }
}

/// Relies on dashmap's `DashMap::insert`: puts the object under `key`
/// and hands back the one it replaced, if any.  A map that answered the
/// call held fewer entries than the addressable maximum, as each entry
/// occupies distinct memory.
#[verifier::external_body]
pub fn map_insert(m: &mut DashMap<u64, Object, RandomState>, key: u64, object: Object) -> (r:
    Option<Object>)
    ensures
        object_map_view(*final(m)) == object_map_view(*old(m)).insert(key, object),
        object_map_view(*final(m)).dom().finite() == object_map_view(*old(m)).dom().finite(),
        object_map_view(*old(m)).len() < usize::MAX,
        match r {
            Some(o) => object_map_view(*old(m)).contains_key(key) && o == object_map_view(
                *old(m),
            )[key],
            None => !object_map_view(*old(m)).contains_key(key),
        },
{
    m.insert(key, object)
}

/// Relies on dashmap's `DashMap::remove`: takes the entry under `key`
/// out, if one stands there.
#[verifier::external_body]
pub fn map_remove(m: &mut DashMap<u64, Object, RandomState>, key: u64) -> (r: Option<Object>)
    ensures
        object_map_view(*final(m)) == object_map_view(*old(m)).remove(key),
        object_map_view(*final(m)).dom().finite() == object_map_view(*old(m)).dom().finite(),
        match r {
            Some(o) => object_map_view(*old(m)).contains_key(key) && o == object_map_view(
                *old(m),
            )[key],
            None => !object_map_view(*old(m)).contains_key(key),
        },
{
    m.remove(&key).map(|entry| entry.1)
}

/// Relies on dashmap's `DashMap::clear`: removes every entry.
#[verifier::external_body]
pub fn map_clear(m: &mut DashMap<u64, Object, RandomState>)
    ensures
        object_map_view(*final(m)) == empty_object_map(),
        object_map_view(*final(m)).dom().finite(),
{
    m.clear()
}

/// Relies on dashmap's `DashMap::iter`: some key of a non-empty map;
/// which one depends on shard order and is not promised.
#[verifier::external_body]
pub fn map_any_key(m: &DashMap<u64, Object, RandomState>) -> (r: Option<u64>)
    ensures
        match r {
            Some(key) => object_map_view(*m).contains_key(key),
            None => object_map_view(*m).len() == 0,
        },
{
    m.iter().next().map(|entry| *entry.key())
}

/// The sum of the base sizes of the objects `m` holds.
pub open spec fn map_base_sum(m: Map<u64, Object>) -> int
    decreases m.dom().len() when m.dom().finite()
{
    if m.dom().len() == 0 {
        0
    } else {
        let k = m.dom().choose();
        spec_base_size(m[k].spec_expiry()) + map_base_sum(m.remove(k))
    }
}

/// Taking one object out lowers the sum by its base size.
pub proof fn lemma_map_base_sum_remove(m: Map<u64, Object>, key: u64)
    requires
        m.dom().finite(),
        m.dom().contains(key),
    ensures
        map_base_sum(m) == map_base_sum(m.remove(key)) + spec_base_size(m[key].spec_expiry()),
    decreases m.dom().len(),
{
    let k0 = m.dom().choose();
    assert(m.dom().contains(k0));
    if k0 == key {
    } else {
        lemma_map_base_sum_remove(m.remove(k0), key);
        assert(m.remove(k0).remove(key) =~= m.remove(key).remove(k0));
        lemma_map_base_sum_remove(m.remove(key), k0);
        assert(m.remove(key)[k0] == m[k0]);
        assert(m.remove(k0)[key] == m[key]);
    }
}

/// A new object adds its base size to the sum.
pub proof fn lemma_map_base_sum_insert(m: Map<u64, Object>, key: u64, object: Object)
    requires
        m.dom().finite(),
        !m.dom().contains(key),
    ensures
        map_base_sum(m.insert(key, object)) == map_base_sum(m) + spec_base_size(
            object.spec_expiry(),
        ),
{
    let grown = m.insert(key, object);
    lemma_map_base_sum_remove(grown, key);
    assert(grown.remove(key) =~= m);
}

/// The sum is never negative.
pub proof fn lemma_map_base_sum_nonneg(m: Map<u64, Object>)
    requires
        m.dom().finite(),
    ensures
        map_base_sum(m) >= 0,
    decreases m.dom().len(),
{
    if m.dom().len() > 0 {
        let k0 = m.dom().choose();
        assert(m.dom().contains(k0));
        lemma_map_base_sum_nonneg(m.remove(k0));
    }
}

/// The sum is at most the largest base size for each object held.
pub proof fn lemma_map_base_sum_upper(m: Map<u64, Object>)
    requires
        m.dom().finite(),
    ensures
        map_base_sum(m) <= m.dom().len() * 96,
    decreases m.dom().len(),
{
    if m.dom().len() > 0 {
        let k0 = m.dom().choose();
        assert(m.dom().contains(k0));
        lemma_map_base_sum_upper(m.remove(k0));
        assert(m.remove(k0).dom() =~= m.dom().remove(k0));
        assert(spec_base_size(m[k0].spec_expiry()) <= 96);
    }
}

/// The key handed to the centralized removal path: the raw key together
/// with its hash, where collisions must be guarded against, or the hash
/// alone.
pub enum EraseKey {
    /// The caller's raw key and its hash; removal only proceeds when the
    /// stored object's raw key matches.
    Original(u64, HashedKey),
    /// A hashed key alone, as eviction and expiry know it.
    Hashed(HashedKey),
}

/// The accounting the erase path and the foreground maintain together:
/// the used-size ledger is the sum of the stored base sizes and the
/// object count is the map's size.
pub open spec fn accounting_ok(m: Map<u64, Object>, status: CacheStatus) -> bool {
    &&& m.dom().finite()
    &&& status.spec_base_used_size() == map_base_sum(m)
    &&& status.spec_num_objects() == m.len()
}

/// Removes one object: by its hashed key, by its raw key with a collision
/// guard, or — where eviction has no key to offer — any one object.  The
/// removed object comes back unless it was already expired at `now`, in
/// which case the removal still happened but reports the key as not
/// found, so the caller does not count it as a live delete.
pub fn erase(
    objects: &mut DashMap<u64, Object, RandomState>,
    status: &mut CacheStatus,
    maybe_key: Option<EraseKey>,
    now: u64,
) -> (r: Result<(HashedKey, Object), CacheError>)
    requires
        accounting_ok(object_map_view(*old(objects)), *old(status)),
    ensures
        accounting_ok(object_map_view(*final(objects)), *final(status)),
        final(status).spec_max_size() == old(status).spec_max_size(),
        final(status).spec_policies() == old(status).spec_policies(),
        final(status).spec_policy_index() == old(status).spec_policy_index(),
        final(status).spec_is_auto_policy() == old(status).spec_is_auto_policy(),
        final(status).spec_total_gets() == old(status).spec_total_gets(),
        final(status).spec_total_hits() == old(status).spec_total_hits(),
        final(status).spec_total_sets() == old(status).spec_total_sets(),
        final(status).spec_total_dels() == old(status).spec_total_dels(),
        match r {
            Ok((key, object)) => {
                &&& object_map_view(*old(objects)).contains_key(key)
                &&& object == object_map_view(*old(objects))[key]
                &&& !object.spec_is_expired(now)
                &&& object_map_view(*final(objects)) == object_map_view(*old(objects)).remove(key)
                &&& (match maybe_key {
                    Some(EraseKey::Original(raw, h)) => key == h && object.spec_key() == raw,
                    Some(EraseKey::Hashed(h)) => key == h,
                    None => true,
                })
            },
            Err(e) => {
                &&& (e is KeyNotFound || e is Internal)
                &&& (e is Internal <==> maybe_key is None && object_map_view(*old(objects)).len()
                    == 0)
                &&& (e is Internal ==> object_map_view(*final(objects)) == object_map_view(
                    *old(objects),
                ) && *final(status) == *old(status))
                &&& (e is KeyNotFound ==> {
                    ||| object_map_view(*final(objects)) == object_map_view(*old(objects))
                    ||| exists|key: u64|
                        {
                            &&& #[trigger] object_map_view(*old(objects)).contains_key(key)
                            &&& object_map_view(*old(objects))[key].spec_is_expired(now)
                            &&& object_map_view(*final(objects)) == object_map_view(
                                *old(objects),
                            ).remove(key)
                        }
                })
            },
        },
        object_map_view(*final(objects)).len() <= object_map_view(*old(objects)).len(),
        match maybe_key {
            Some(EraseKey::Original(raw, h)) => {
                &&& ((object_map_view(*old(objects)).contains_key(h) && object_map_view(
                    *old(objects),
                )[h].spec_key() == raw) ==> object_map_view(*final(objects)) == object_map_view(
                    *old(objects),
                ).remove(h))
                &&& (!(object_map_view(*old(objects)).contains_key(h) && object_map_view(
                    *old(objects),
                )[h].spec_key() == raw) ==> object_map_view(*final(objects)) == object_map_view(
                    *old(objects),
                ) && *final(status) == *old(status))
            },
            Some(EraseKey::Hashed(h)) => {
                &&& (object_map_view(*old(objects)).contains_key(h) ==> object_map_view(
                    *final(objects),
                ) == object_map_view(*old(objects)).remove(h))
                &&& (!object_map_view(*old(objects)).contains_key(h) ==> object_map_view(
                    *final(objects),
                ) == object_map_view(*old(objects)) && *final(status) == *old(status))
            },
            None => object_map_view(*old(objects)).len() > 0 ==> object_map_view(
                *final(objects),
            ).len() < object_map_view(*old(objects)).len(),
        },
{
    let ghost pre = object_map_view(*objects);
    let hashed_key: u64 = match &maybe_key {
        Some(EraseKey::Original(_, h)) => *h,
        Some(EraseKey::Hashed(h)) => *h,
        None => {
            // eviction ran out of keys: fall back to removing any object
            // so the memory bound still makes progress
            match map_any_key(objects) {
                Some(key) => key,
                None => {
                    return Err(CacheError::Internal);
                },
            }
        },
    };
    // look before removing: with a raw key a hash collision must not
    // delete another caller's object
    let found = map_get(objects, hashed_key);
    let object = match found {
        Some(object) => object,
        None => {
            return Err(CacheError::KeyNotFound);
        },
    };
    if let Some(EraseKey::Original(raw, _)) = &maybe_key {
        if !object.key_matches(raw) {
            return Err(CacheError::KeyNotFound);
        }
    }
    let removed = match map_remove(objects, hashed_key) {
        Some(object) => object,
        None => {
            proof {
                assert(false);
            }
            return Err(CacheError::Internal);
        },
    };
    let size = base_size(&removed);
    proof {
        lemma_map_base_sum_remove(pre, hashed_key);
        lemma_map_base_sum_nonneg(pre.remove(hashed_key));
        vstd::set_lib::lemma_len_subset(pre.remove(hashed_key).dom(), pre.dom());
        assert(pre.remove(hashed_key).dom() =~= pre.dom().remove(hashed_key));
    }
    status.sub_base_used(size);
    status.decr_num_objects();
    if !removed.is_expired(now) {
        Ok((hashed_key, removed))
    } else {
        Err(CacheError::KeyNotFound)
    }
}

} // verus!
