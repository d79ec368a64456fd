//! The cache's laws: what holds of every key, value and instant, proved
//! over the operation relations the public functions ensure.
use vstd::prelude::*;

use std::sync::Arc;

use crate::bridge;
use crate::cache::PaperCache;
use crate::error::CacheError;
use crate::object::spec_expiry_from_ttl;
use crate::overhead::spec_base_size;
use crate::status::spec_incr64;

verus! {

/// Presence agrees everywhere: `has`, a successful `peek` and raw-key
/// membership in the map are one and the same judgement of one instant.
pub proof fn lemma_has_peek_membership_agree(cache: PaperCache, key: u64, now: u64)
    ensures
        cache.spec_live(key, now) <==> (cache.map_view().contains_key(bridge::hash_of(key))
            && cache.map_view()[bridge::hash_of(key)].spec_key() == key
            && !cache.map_view()[bridge::hash_of(key)].spec_is_expired(now)),
{
}

/// A set followed by a get of the same key hands back a handle to the
/// value just stored, as long as the object has not expired in between
/// and no other operation intervened.
pub proof fn lemma_set_then_get(
    pre: PaperCache,
    mid: PaperCache,
    post: PaperCache,
    key: u64,
    value: u64,
    ttl: Option<u32>,
    set_now: u64,
    get_now: u64,
    set_result: Result<(), CacheError>,
    get_result: Result<Arc<u64>, CacheError>,
)
    requires
        PaperCache::set_rel(pre, mid, key, value, ttl, set_now, set_result),
        PaperCache::get_rel(mid, post, key, get_now, get_result),
        spec_base_size(spec_expiry_from_ttl(ttl, set_now)) <= pre.status.spec_max_size(),
        match spec_expiry_from_ttl(ttl, set_now) {
            Some(expiry) => get_now < expiry,
            None => true,
        },
    ensures
        mid.spec_live(key, get_now),
        get_result is Ok ==> get_result->Ok_0@ == value,
        get_result is Ok || get_result == Err::<Arc<u64>, CacheError>(CacheError::Internal),
{
    assert(spec_base_size(spec_expiry_from_ttl(ttl, set_now)) > 0);
}

/// The round trip: a set makes the key peekable with the stored value; a
/// delete then leaves a get finding nothing.
pub proof fn lemma_round_trip(
    pre: PaperCache,
    after_set: PaperCache,
    after_del: PaperCache,
    after_get: PaperCache,
    key: u64,
    value: u64,
    now: u64,
    set_result: Result<(), CacheError>,
    del_result: Result<(), CacheError>,
    get_result: Result<Arc<u64>, CacheError>,
)
    requires
        PaperCache::set_rel(pre, after_set, key, value, None, now, set_result),
        PaperCache::del_rel(after_set, after_del, key, now, del_result),
        PaperCache::get_rel(after_del, after_get, key, now, get_result),
        spec_base_size(spec_expiry_from_ttl(None, now)) <= pre.status.spec_max_size(),
    ensures
        after_set.spec_live(key, now),
        after_set.spec_value_of(key) == value,
        del_result is Ok || del_result == Err::<(), CacheError>(CacheError::Internal),
        get_result == Err::<Arc<u64>, CacheError>(CacheError::KeyNotFound) || get_result == Err::<
            Arc<u64>,
            CacheError,
        >(CacheError::Internal),
{
    let h = bridge::hash_of(key);
    assert(after_del.map_view() == after_set.map_view().remove(h));
    assert(!after_del.map_view().contains_key(h));
    assert(!after_del.spec_live(key, now));
}

/// Deleting twice finds nothing the second time: a delete leaves no
/// object under the key's hash.
pub proof fn lemma_idempotent_delete(
    pre: PaperCache,
    mid: PaperCache,
    post: PaperCache,
    key: u64,
    first_now: u64,
    second_now: u64,
    first_result: Result<(), CacheError>,
    second_result: Result<(), CacheError>,
)
    requires
        PaperCache::del_rel(pre, mid, key, first_now, first_result),
        PaperCache::del_rel(mid, post, key, second_now, second_result),
        pre.map_view().contains_key(bridge::hash_of(key)) && pre.map_view()[bridge::hash_of(
            key,
        )].spec_key() == key,
    ensures
        second_result == Err::<(), CacheError>(CacheError::KeyNotFound),
        post.map_view() == mid.map_view(),
{
    let h = bridge::hash_of(key);
    assert(mid.map_view() == pre.map_view().remove(h));
    assert(!mid.map_view().contains_key(h));
}

/// TTL monotonicity: after a set with a positive TTL, a get before the
/// expiry instant finds the value and a get at or after it finds
/// nothing.
pub proof fn lemma_ttl_monotone(
    pre: PaperCache,
    mid: PaperCache,
    post: PaperCache,
    key: u64,
    value: u64,
    ttl: u32,
    set_now: u64,
    get_now: u64,
    set_result: Result<(), CacheError>,
    get_result: Result<Arc<u64>, CacheError>,
)
    requires
        ttl > 0,
        PaperCache::set_rel(pre, mid, key, value, Some(ttl), set_now, set_result),
        PaperCache::get_rel(mid, post, key, get_now, get_result),
        spec_base_size(spec_expiry_from_ttl(Some(ttl), set_now)) <= pre.status.spec_max_size(),
    ensures
        get_now < spec_expiry_from_ttl(Some(ttl), set_now)->0 ==> (get_result is Ok
            ==> get_result->Ok_0@ == value) && (get_result is Ok || get_result == Err::<
            Arc<u64>,
            CacheError,
        >(CacheError::Internal)),
        get_now >= spec_expiry_from_ttl(Some(ttl), set_now)->0 ==> get_result == Err::<
            Arc<u64>,
            CacheError,
        >(CacheError::KeyNotFound) || get_result == Err::<Arc<u64>, CacheError>(
            CacheError::Internal,
        ),
{
    let h = bridge::hash_of(key);
    let expiry = spec_expiry_from_ttl(Some(ttl), set_now);
    assert(expiry is Some);
    assert(mid.map_view()[h].spec_expiry() == expiry);
    if get_now >= expiry->0 {
        assert(mid.map_view()[h].spec_is_expired(get_now));
        assert(!mid.spec_live(key, get_now));
    }
}

/// A get keeps the hit count within the get count.
pub proof fn lemma_hits_within_gets(
    pre: PaperCache,
    post: PaperCache,
    key: u64,
    now: u64,
    r: Result<Arc<u64>, CacheError>,
)
    requires
        PaperCache::get_rel(pre, post, key, now, r),
        pre.status.spec_total_hits() <= pre.status.spec_total_gets(),
    ensures
        post.status.spec_total_hits() <= post.status.spec_total_gets(),
        post.status.spec_total_gets() == spec_incr64(pre.status.spec_total_gets()),
{
}

/// No foreground operation moves the active policy: a set followed by a
/// get leaves the configured policies, the active index and the selector
/// flag exactly as the cache was built with.
pub proof fn lemma_policy_stable_under_traffic(
    pre: PaperCache,
    mid: PaperCache,
    post: PaperCache,
    set_key: u64,
    value: u64,
    ttl: Option<u32>,
    get_key: u64,
    set_now: u64,
    get_now: u64,
    set_result: Result<(), CacheError>,
    get_result: Result<Arc<u64>, CacheError>,
)
    requires
        PaperCache::set_rel(pre, mid, set_key, value, ttl, set_now, set_result),
        PaperCache::get_rel(mid, post, get_key, get_now, get_result),
    ensures
        post.status.spec_policies() == pre.status.spec_policies(),
        post.status.spec_policy_index() == pre.status.spec_policy_index(),
        post.status.spec_is_auto_policy() == pre.status.spec_is_auto_policy(),
{
}

} // verus!
