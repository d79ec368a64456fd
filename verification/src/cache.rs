//! The cache itself: the public operations over the shared object map and
//! the counters, the event bus to the workers, and the sequential worker
//! drain that keeps the eviction order, the trace log and the expiry index
//! in step.
use vstd::prelude::*;

use std::hash::RandomState;
use std::sync::Arc;

use crossbeam_channel::{Receiver, Sender};
use dashmap::DashMap;

use crate::CacheSize;
use crate::bridge;
use crate::bus::{new_event_channel, recv_event, send_event};
use crate::error::CacheError;
use crate::events::{StackEvent, WorkerEvent};
use crate::map::{
    EraseKey, accounting_ok, erase, lemma_map_base_sum_insert, lemma_map_base_sum_nonneg,
    lemma_map_base_sum_remove, map_get, map_insert, map_clear, new_object_map, object_map_view,
};
use crate::object::{ExpireTime, Object, ObjectSize, spec_expiry_from_ttl};
use crate::overhead::{base_size, spec_base_size, spec_policy_overhead, total_size};
use crate::policy::{
    PaperPolicy, contains_policy, has_duplicate_policies, spec_contains_policy,
    spec_has_duplicates,
};
use crate::status::{CacheStatus, Status, spec_incr64};
use crate::worker::{PolicyWorker, TtlWorker};

verus! {

/// How many queued events one drain takes at most.
pub const EVENT_BATCH_LIMIT: usize = 65_536;

/// Whether every policy of the list carries valid ratio parameters.
pub open spec fn spec_params_all_valid(policies: Seq<PaperPolicy>) -> bool {
    forall|i: int| 0 <= i < policies.len() ==> (#[trigger] policies[i]).params_valid()
}

/// The in-memory, size-bounded key/value cache with online selection
/// among its configured eviction policies.
pub struct PaperCache {
    pub objects: DashMap<u64, Object, RandomState>,
    pub status: CacheStatus,
    pub sender: Sender<WorkerEvent>,
    pub listener: Receiver<WorkerEvent>,
    pub policy_worker: PolicyWorker,
    pub ttl_worker: TtlWorker,
}

impl PaperCache {
    /// What the cache holds: each hashed key's object.
    pub open spec fn map_view(self) -> Map<u64, Object> {
        object_map_view(self.objects)
    }

    /// The cache is well formed when its counters are the map's
    /// accounting, its workers keep their invariants, and one shadow
    /// stack stands per configured policy.
    pub open spec fn wf(self) -> bool {
        &&& self.status.wf()
        &&& accounting_ok(self.map_view(), self.status)
        &&& self.policy_worker.wf()
        &&& self.ttl_worker.wf()
        &&& self.policy_worker.mini_manager.mini_stacks@.len() == self.status.spec_policies().len()
    }

    /// Whether `key` is stored and live at `now`: its hash maps to an
    /// object whose raw key matches and which has not expired.
    pub open spec fn spec_live(self, key: u64, now: u64) -> bool {
        let h = bridge::hash_of(key);
        &&& self.map_view().contains_key(h)
        &&& self.map_view()[h].spec_key() == key
        &&& !self.map_view()[h].spec_is_expired(now)
    }

    /// The stored value of a live `key`.
    pub open spec fn spec_value_of(self, key: u64) -> u64 {
        self.map_view()[bridge::hash_of(key)].spec_data()
    }

    /// Whether the status's policy configuration is unchanged between two
    /// cache states.
    pub open spec fn policy_config_unchanged(pre: PaperCache, post: PaperCache) -> bool {
        &&& post.status.spec_policies() == pre.status.spec_policies()
        &&& post.status.spec_policy_index() == pre.status.spec_policy_index()
        &&& post.status.spec_is_auto_policy() == pre.status.spec_is_auto_policy()
        &&& post.status.spec_max_size() == pre.status.spec_max_size()
    }

    /// How a get steps the cache: the counters take a hit or a miss, the
    /// map stands, and the result is the live value, its absence, or an
    /// internal fault of the worker bus.
    pub open spec fn get_rel(
        pre: PaperCache,
        post: PaperCache,
        key: u64,
        now: u64,
        r: Result<Arc<u64>, CacheError>,
    ) -> bool {
        let hit = pre.spec_live(key, now);
        &&& post.map_view() == pre.map_view()
        &&& post.status == (CacheStatus {
            total_gets: spec_incr64(pre.status.spec_total_gets()),
            total_hits: if hit {
                spec_incr64(pre.status.spec_total_hits())
            } else {
                pre.status.spec_total_hits()
            },
            ..pre.status
        })
        &&& post.policy_worker == pre.policy_worker
        &&& post.ttl_worker == pre.ttl_worker
        &&& match r {
            Ok(v) => hit && v@ == pre.spec_value_of(key),
            Err(e) => (e is KeyNotFound && !hit) || e is Internal,
        }
    }

    /// How a set steps the cache: a zero base size or one beyond the
    /// bound is refused without effect; otherwise the object is stored
    /// under its hash, the ledger moves by the replacement delta, and the
    /// set total counts one more.
    pub open spec fn set_rel(
        pre: PaperCache,
        post: PaperCache,
        key: u64,
        value: u64,
        ttl: Option<u32>,
        now: u64,
        r: Result<(), CacheError>,
    ) -> bool {
        let h = bridge::hash_of(key);
        let expiry = spec_expiry_from_ttl(ttl, now);
        let base = spec_base_size(expiry);
        let replaced = pre.map_view().contains_key(h);
        if base == 0 {
            r == Err::<(), CacheError>(CacheError::ZeroValueSize) && post == pre
        } else if base > pre.status.spec_max_size() {
            r == Err::<(), CacheError>(CacheError::ExceedingValueSize) && post == pre
        } else {
            &&& post.map_view().contains_key(h)
            &&& post.map_view()[h].spec_key() == key
            &&& post.map_view()[h].spec_data() == value
            &&& post.map_view()[h].spec_expiry() == expiry
            &&& post.map_view().remove(h) == pre.map_view().remove(h)
            &&& post.status.spec_total_sets() == spec_incr64(pre.status.spec_total_sets())
            &&& post.status.spec_total_gets() == pre.status.spec_total_gets()
            &&& post.status.spec_total_hits() == pre.status.spec_total_hits()
            &&& post.status.spec_total_dels() == pre.status.spec_total_dels()
            &&& PaperCache::policy_config_unchanged(pre, post)
            &&& post.status.spec_num_objects() == if replaced {
                pre.status.spec_num_objects() as int
            } else {
                pre.status.spec_num_objects() + 1
            }
            &&& post.ttl_worker == pre.ttl_worker
            &&& post.policy_worker == pre.policy_worker
            &&& (r == Ok::<(), CacheError>(()) || r == Err::<(), CacheError>(CacheError::Internal))
        }
    }

    /// How a delete steps the cache: a missing or mismatching key is
    /// refused without effect; an expired object is removed but reported
    /// as not found; a live one is removed and counted.
    pub open spec fn del_rel(
        pre: PaperCache,
        post: PaperCache,
        key: u64,
        now: u64,
        r: Result<(), CacheError>,
    ) -> bool {
        let h = bridge::hash_of(key);
        let present = pre.map_view().contains_key(h) && pre.map_view()[h].spec_key() == key;
        let live = pre.spec_live(key, now);
        &&& post.policy_worker == pre.policy_worker
        &&& post.ttl_worker == pre.ttl_worker
        &&& PaperCache::policy_config_unchanged(pre, post)
        &&& post.status.spec_total_gets() == pre.status.spec_total_gets()
        &&& post.status.spec_total_hits() == pre.status.spec_total_hits()
        &&& post.status.spec_total_sets() == pre.status.spec_total_sets()
        &&& (!present ==> post.map_view() == pre.map_view() && post.status
            == pre.status && r == Err::<(), CacheError>(CacheError::KeyNotFound))
        &&& (present ==> post.map_view() == pre.map_view().remove(h))
        &&& (present && !live ==> r == Err::<(), CacheError>(CacheError::KeyNotFound)
            && post.status.spec_total_dels() == pre.status.spec_total_dels())
        &&& (present && live ==> (r == Ok::<(), CacheError>(()) || r == Err::<(), CacheError>(
            CacheError::Internal,
        )) && post.status.spec_total_dels() == spec_incr64(pre.status.spec_total_dels()))
    }

    /// How a TTL rewrite steps the cache: a key not live at `now` is
    /// refused without effect; a live one keeps its value and takes the
    /// expiry `ttl` seconds from `now`, with the ledger moved by the
    /// TTL overhead delta.
    pub open spec fn ttl_rel(
        pre: PaperCache,
        post: PaperCache,
        key: u64,
        ttl: Option<u32>,
        now: u64,
        r: Result<(), CacheError>,
    ) -> bool {
        let h = bridge::hash_of(key);
        &&& PaperCache::policy_config_unchanged(pre, post)
        &&& post.status.spec_total_gets() == pre.status.spec_total_gets()
        &&& post.status.spec_total_hits() == pre.status.spec_total_hits()
        &&& post.status.spec_total_sets() == pre.status.spec_total_sets()
        &&& post.status.spec_total_dels() == pre.status.spec_total_dels()
        &&& post.status.spec_num_objects() == pre.status.spec_num_objects()
        &&& post.policy_worker == pre.policy_worker
        &&& post.ttl_worker == pre.ttl_worker
        &&& (!pre.spec_live(key, now) ==> post == pre && r == Err::<(), CacheError>(
            CacheError::KeyNotFound,
        ))
        &&& (pre.spec_live(key, now) ==> {
            &&& post.map_view().contains_key(h)
            &&& post.map_view()[h].spec_key() == key
            &&& post.map_view()[h].spec_data() == pre.spec_value_of(key)
            &&& post.map_view()[h].spec_expiry() == spec_expiry_from_ttl(ttl, now)
            &&& post.map_view().remove(h) == pre.map_view().remove(h)
            &&& (r == Ok::<(), CacheError>(()) || r == Err::<(), CacheError>(CacheError::Internal))
        })
    }

    /// Builds a cache of `max_size` bytes over the given eviction
    /// policies, refusing a zero size, an empty or duplicated policy
    /// list, a configured automatic policy, an unconfigured starting
    /// policy, and invalid policy parameters.
    pub fn new(max_size: CacheSize, policies: &[PaperPolicy], policy: PaperPolicy) -> (r: Result<
        PaperCache,
        CacheError,
    >)
        ensures
            match r {
                Ok(cache) => {
                    &&& cache.wf()
                    &&& max_size > 0
                    &&& policies@.len() > 0
                    &&& !spec_has_duplicates(policies@)
                    &&& cache.status.spec_max_size() == max_size
                    &&& cache.status.spec_policies() == policies@
                    &&& cache.status.spec_is_auto_policy() == (policy is Auto)
                    &&& (!(policy is Auto) ==> cache.status.spec_policy() == policy
                        && cache.policy_worker.current_policy == policy)
                    &&& cache.map_view() == crate::map::empty_object_map()
                    &&& cache.status.spec_base_used_size() == 0
                    &&& cache.status.spec_num_objects() == 0
                    &&& cache.status.spec_total_gets() == 0
                    &&& cache.status.spec_total_hits() == 0
                    &&& cache.status.spec_total_sets() == 0
                    &&& cache.status.spec_total_dels() == 0
                },
                Err(e) => {
                    &&& (e is ZeroCacheSize <==> max_size == 0)
                    &&& (e is EmptyPolicies <==> max_size > 0 && policies@.len() == 0)
                    &&& (e is ConfiguredAutoPolicy <==> max_size > 0 && policies@.len() > 0
                        && spec_contains_policy(policies@, PaperPolicy::Auto))
                    &&& (e is DuplicatePolicies <==> max_size > 0 && policies@.len() > 0
                        && !spec_contains_policy(policies@, PaperPolicy::Auto)
                        && spec_has_duplicates(policies@))
                    &&& (e is UnconfiguredPolicy <==> max_size > 0 && policies@.len() > 0
                        && !spec_contains_policy(policies@, PaperPolicy::Auto)
                        && !spec_has_duplicates(policies@) && !(policy is Auto)
                        && !spec_contains_policy(policies@, policy))
                    &&& (e is InvalidPolicy <==> max_size > 0 && policies@.len() > 0
                        && !spec_contains_policy(policies@, PaperPolicy::Auto)
                        && !spec_has_duplicates(policies@) && (policy is Auto
                        || spec_contains_policy(policies@, policy)) && !(spec_params_all_valid(
                        policies@,
                    ) && policy.params_valid()))
                },
            },
            r is Ok <==> (max_size > 0 && policies@.len() > 0 && !spec_contains_policy(
                policies@,
                PaperPolicy::Auto,
            ) && !spec_has_duplicates(policies@) && (policy is Auto || spec_contains_policy(
                policies@,
                policy,
            )) && spec_params_all_valid(policies@) && policy.params_valid()),
    {
        if max_size == 0 {
            return Err(CacheError::ZeroCacheSize);
        }
        if policies.len() == 0 {
            return Err(CacheError::EmptyPolicies);
        }
        if contains_policy(policies, PaperPolicy::Auto) {
            return Err(CacheError::ConfiguredAutoPolicy);
        }
        if has_duplicate_policies(policies) {
            return Err(CacheError::DuplicatePolicies);
        }
        if !policy.is_auto() && !contains_policy(policies, policy) {
            return Err(CacheError::UnconfiguredPolicy);
        }
        // the ratio parameters of the parameterized policies must lie in
        // range before any stack is sized by them
        let mut configured: Vec<PaperPolicy> = Vec::new();
        let count = policies.len();
        let mut i: usize = 0;
        while i < count
            invariant
                max_size > 0,
                0 <= i <= count,
                count == policies@.len(),
                count > 0,
                !spec_contains_policy(policies@, PaperPolicy::Auto),
                !spec_has_duplicates(policies@),
                policy is Auto || spec_contains_policy(policies@, policy),
                configured@ == policies@.subrange(0, i as int),
                forall|k: int|
                    0 <= k < i ==> (#[trigger] policies@[k]).params_valid() && !(
                    policies@[k] is Auto),
                forall|k: int| 0 <= k < count ==> policies@[k] != PaperPolicy::Auto,
            decreases count - i,
        {
            let p = policies[i];
            let valid = match p {
                PaperPolicy::TwoQ(k_in, k_out) => k_in <= crate::policy::RATIO_SCALE && k_out
                    <= crate::policy::RATIO_SCALE && k_in <= crate::policy::RATIO_SCALE - k_out,
                PaperPolicy::SThreeFifo(ratio) => ratio <= crate::policy::RATIO_SCALE,
                _ => true,
            };
            if !valid {
                proof {
                    assert(!policies@[i as int].params_valid());
                    assert(!spec_params_all_valid(policies@));
                }
                return Err(CacheError::InvalidPolicy);
            }
            configured.push(p);
            proof {
                assert(configured@ =~= policies@.subrange(0, i + 1));
            }
            i = i + 1;
        }
        proof {
            assert(configured@ =~= policies@);
            assert(spec_params_all_valid(policies@));
        }
        let starting_valid = match policy {
            PaperPolicy::TwoQ(k_in, k_out) => k_in <= crate::policy::RATIO_SCALE && k_out
                <= crate::policy::RATIO_SCALE && k_in <= crate::policy::RATIO_SCALE - k_out,
            PaperPolicy::SThreeFifo(ratio) => ratio <= crate::policy::RATIO_SCALE,
            _ => true,
        };
        if !starting_valid {
            proof {
                assert(!policy.params_valid());
            }
            return Err(CacheError::InvalidPolicy);
        }
        let now = bridge::now_millis();
        let status = match CacheStatus::new(max_size, configured, policy, now) {
            Ok(status) => status,
            Err(e) => {
                return Err(e);
            },
        };
        let worker_policy = status.policy();
        let policy_worker = PolicyWorker::new(status.policies(), worker_policy, max_size, now);
        let (sender, listener) = new_event_channel();
        let cache = PaperCache {
            objects: new_object_map(),
            status,
            sender,
            listener,
            policy_worker,
            ttl_worker: TtlWorker::new(),
        };
        proof {
            assert(cache.map_view().dom().len() == 0);
            assert(crate::map::map_base_sum(cache.map_view()) == 0);
        }
        Ok(cache)
    }

    /// The crate's version.
    pub fn version(&self) -> (r: &'static str)
        ensures
            r@ == "1.0.0"@,
    {
        "1.0.0"
    }

    /// A snapshot of the counters under the active policy.
    pub fn status(&self) -> (r: Result<Status, CacheError>)
        requires
            self.wf(),
        ensures
            match r {
                Ok(s) => {
                    &&& s.max_size == self.status.spec_max_size()
                    &&& s.used_size == crate::status::spec_to_u64(self.status.spec_used_size())
                    &&& s.num_objects == self.status.spec_num_objects()
                    &&& s.total_gets == self.status.spec_total_gets()
                    &&& s.total_hits == self.status.spec_total_hits()
                    &&& s.total_sets == self.status.spec_total_sets()
                    &&& s.total_dels == self.status.spec_total_dels()
                    &&& s.policies@ == self.status.spec_policies()
                    &&& s.policy == self.status.spec_policy()
                    &&& s.is_auto_policy == self.status.spec_is_auto_policy()
                },
                Err(e) => e is Internal,
            },
    {
        let now = bridge::now_millis();
        self.status.try_to_status(now)
    }

    /// Gets the value stored under `key`, taken at the instant `now`.
    pub fn get_at(&mut self, key: &u64, now: u64) -> (r: Result<Arc<u64>, CacheError>)
        requires
            old(self).wf(),
        ensures
            final(self).wf(),
            PaperCache::get_rel(*old(self), *final(self), *key, now, r),
    {
        let hashed_key = bridge::hash_raw_key(*key);
        let found = map_get(&self.objects, hashed_key);
        let hit = match &found {
            Some(object) => object.key_matches(key) && !object.is_expired(now),
            None => false,
        };
        let result: Result<Arc<u64>, CacheError> = if hit {
            self.status.incr_hits();
            match found {
                Some(object) => Ok(object.data()),
                None => Err(CacheError::Internal),
            }
        } else {
            self.status.incr_misses();
            Err(CacheError::KeyNotFound)
        };
        if !send_event(&self.sender, WorkerEvent::Get(hashed_key, hit)) {
            return Err(CacheError::Internal);
        }
        result
    }

    /// Gets the value stored under `key`.  The instant is read from the
    /// system clock.
    pub fn get(&mut self, key: &u64) -> (r: Result<Arc<u64>, CacheError>)
        requires
            old(self).wf(),
        ensures
            final(self).wf(),
            exists|now: u64| #[trigger] PaperCache::get_rel(*old(self), *final(self), *key, now, r),
    {
        let now = bridge::now_millis();
        let r = self.get_at(key, now);
        proof {
            assert(PaperCache::get_rel(*old(self), *self, *key, now, r));
        }
        r
    }

    /// Stores `value` under `key` with an optional TTL in seconds, taken
    /// at the instant `now`.  A TTL of zero or `None` never expires.
    pub fn set_at(&mut self, key: u64, value: u64, ttl: Option<u32>, now: u64) -> (r: Result<
        (),
        CacheError,
    >)
        requires
            old(self).wf(),
        ensures
            final(self).wf(),
            PaperCache::set_rel(*old(self), *final(self), key, value, ttl, now, r),
    {
        let ghost pre = *self;
        let hashed_key = bridge::hash_raw_key(key);
        let object = Object::new(key, value, ttl, now);
        let object_base_size = base_size(&object);
        let expiry = object.expiry();
        if object_base_size == 0 {
            return Err(CacheError::ZeroValueSize);
        }
        if self.status.exceeds_max_size(object_base_size) {
            return Err(CacheError::ExceedingValueSize);
        }
        self.status.incr_sets();
        let entry_count = crate::map::map_len(&self.objects);
        proof {
            crate::map::lemma_map_base_sum_upper(self.map_view());
            assert(self.map_view().dom().len() * 96 <= usize::MAX as int * 96)
                by (nonlinear_arith)
                requires
                    self.map_view().dom().len() <= usize::MAX as int,
            ;
        }
        let ghost mid_map = self.map_view();
        let old_object = map_insert(&mut self.objects, hashed_key, object);
        let old_object_info: Option<(ObjectSize, ExpireTime)> = match &old_object {
            Some(replaced) => Some((base_size(replaced), replaced.expiry())),
            None => None,
        };
        proof {
            if mid_map.contains_key(hashed_key) {
                lemma_map_base_sum_remove(mid_map, hashed_key);
                lemma_map_base_sum_insert(
                    mid_map.remove(hashed_key),
                    hashed_key,
                    self.map_view()[hashed_key],
                );
                assert(mid_map.remove(hashed_key).insert(hashed_key, self.map_view()[hashed_key])
                    =~= self.map_view());
                lemma_map_base_sum_nonneg(mid_map.remove(hashed_key));
                assert(mid_map.remove(hashed_key).dom() =~= mid_map.dom().remove(hashed_key));
            } else {
                lemma_map_base_sum_insert(mid_map, hashed_key, self.map_view()[hashed_key]);
                assert(mid_map.insert(hashed_key, self.map_view()[hashed_key]) =~= self.map_view());
                lemma_map_base_sum_nonneg(mid_map);
                assert(mid_map.dom().insert(hashed_key) =~= self.map_view().dom());
            }
        }
        match old_object_info {
            Some((old_size, _)) => {
                self.status.sub_base_used(old_size);
                self.status.add_base_used(object_base_size);
            },
            None => {
                self.status.add_base_used(object_base_size);
                self.status.incr_num_objects();
            },
        }
        proof {
            assert(self.map_view().remove(hashed_key) =~= pre.map_view().remove(hashed_key));
        }
        if !send_event(
            &self.sender,
            WorkerEvent::Put(hashed_key, object_base_size, expiry, old_object_info),
        ) {
            return Err(CacheError::Internal);
        }
        Ok(())
    }

    /// Stores `value` under `key` with an optional TTL in seconds.  The
    /// instant is read from the system clock.
    pub fn set(&mut self, key: u64, value: u64, ttl: Option<u32>) -> (r: Result<(), CacheError>)
        requires
            old(self).wf(),
        ensures
            final(self).wf(),
            exists|now: u64|
                #[trigger] PaperCache::set_rel(*old(self), *final(self), key, value, ttl, now, r),
    {
        let now = bridge::now_millis();
        let r = self.set_at(key, value, ttl, now);
        proof {
            assert(PaperCache::set_rel(*old(self), *self, key, value, ttl, now, r));
        }
        r
    }

    /// Deletes the object stored under `key`, judged at the instant
    /// `now`.
    pub fn del_at(&mut self, key: &u64, now: u64) -> (r: Result<(), CacheError>)
        requires
            old(self).wf(),
        ensures
            final(self).wf(),
            PaperCache::del_rel(*old(self), *final(self), *key, now, r),
    {
        let hashed_key = bridge::hash_raw_key(*key);
        let erased = erase(
            &mut self.objects,
            &mut self.status,
            Some(EraseKey::Original(*key, hashed_key)),
            now,
        );
        match erased {
            Ok((removed_key, object)) => {
                self.status.incr_dels();
                if !send_event(&self.sender, WorkerEvent::Del(removed_key, object.expiry())) {
                    return Err(CacheError::Internal);
                }
                Ok(())
            },
            Err(e) => Err(e),
        }
    }

    /// Deletes the object stored under `key`.  The instant is read from
    /// the system clock.
    pub fn del(&mut self, key: &u64) -> (r: Result<(), CacheError>)
        requires
            old(self).wf(),
        ensures
            final(self).wf(),
            exists|now: u64| #[trigger] PaperCache::del_rel(*old(self), *final(self), *key, now, r),
    {
        let now = bridge::now_millis();
        let r = self.del_at(key, now);
        proof {
            assert(PaperCache::del_rel(*old(self), *self, *key, now, r));
        }
        r
    }

    /// Returns whether `key` is stored and live at `now`, touching no
    /// eviction order and no counter.
    pub fn has_at(&self, key: &u64, now: u64) -> (r: bool)
        requires
            self.wf(),
        ensures
            r == self.spec_live(*key, now),
    {
        let hashed_key = bridge::hash_raw_key(*key);
        match map_get(&self.objects, hashed_key) {
            Some(object) => object.key_matches(key) && !object.is_expired(now),
            None => false,
        }
    }

    /// Returns whether `key` is stored and live, touching no eviction
    /// order and no counter.
    pub fn has(&self, key: &u64) -> (r: bool)
        requires
            self.wf(),
        ensures
            exists|now: u64| r == self.spec_live(*key, #[trigger] spec_now_witness(now)),
    {
        let now = bridge::now_millis();
        let r = self.has_at(key, now);
        proof {
            assert(r == self.spec_live(*key, spec_now_witness(now)));
        }
        r
    }

    /// Gets the value stored under `key` at `now` without touching any
    /// eviction order or counter.
    pub fn peek_at(&self, key: &u64, now: u64) -> (r: Result<Arc<u64>, CacheError>)
        requires
            self.wf(),
        ensures
            match r {
                Ok(v) => self.spec_live(*key, now) && v@ == self.spec_value_of(*key),
                Err(e) => e is KeyNotFound && !self.spec_live(*key, now),
            },
    {
        let hashed_key = bridge::hash_raw_key(*key);
        match map_get(&self.objects, hashed_key) {
            Some(object) => {
                if object.key_matches(key) && !object.is_expired(now) {
                    Ok(object.data())
                } else {
                    Err(CacheError::KeyNotFound)
                }
            },
            None => Err(CacheError::KeyNotFound),
        }
    }

    /// Gets the value stored under `key` without touching any eviction
    /// order or counter.  The instant is read from the system clock.
    pub fn peek(&self, key: &u64) -> (r: Result<Arc<u64>, CacheError>)
        requires
            self.wf(),
        ensures
            match r {
                Ok(v) => exists|now: u64|
                    self.spec_live(*key, #[trigger] spec_now_witness(now)) && v@
                        == self.spec_value_of(*key),
                Err(e) => e is KeyNotFound,
            },
    {
        let now = bridge::now_millis();
        let r = self.peek_at(key, now);
        proof {
            if r is Ok {
                assert(self.spec_live(*key, spec_now_witness(now)) && r->Ok_0@
                    == self.spec_value_of(*key));
            }
        }
        r
    }

    /// The total bytes the object under `key` occupies at `now` under the
    /// active policy: base size plus the policy's per-object overhead.
    pub fn size_at(&self, key: &u64, now: u64) -> (r: Result<ObjectSize, CacheError>)
        requires
            self.wf(),
        ensures
            match r {
                Ok(size) => self.spec_live(*key, now) && size == spec_base_size(
                    self.map_view()[bridge::hash_of(*key)].spec_expiry(),
                ) + spec_policy_overhead(self.status.spec_policy()),
                Err(e) => e is KeyNotFound && !self.spec_live(*key, now),
            },
    {
        let hashed_key = bridge::hash_raw_key(*key);
        match map_get(&self.objects, hashed_key) {
            Some(object) => {
                if object.key_matches(key) && !object.is_expired(now) {
                    let policy = self.status.policy();
                    Ok(total_size(&object, &policy))
                } else {
                    Err(CacheError::KeyNotFound)
                }
            },
            None => Err(CacheError::KeyNotFound),
        }
    }

    /// The total bytes the object under `key` occupies under the active
    /// policy.  The instant is read from the system clock.
    pub fn size(&self, key: &u64) -> (r: Result<ObjectSize, CacheError>)
        requires
            self.wf(),
        ensures
            match r {
                Ok(size) => exists|now: u64|
                    self.spec_live(*key, #[trigger] spec_now_witness(now)) && size
                        == spec_base_size(self.map_view()[bridge::hash_of(*key)].spec_expiry())
                        + spec_policy_overhead(self.status.spec_policy()),
                Err(e) => e is KeyNotFound,
            },
    {
        let now = bridge::now_millis();
        let r = self.size_at(key, now);
        proof {
            if r is Ok {
                assert(self.spec_live(*key, spec_now_witness(now)));
            }
        }
        r
    }

    /// Rewrites the TTL of the object stored under `key`, judged and
    /// anchored at the instant `now`.
    pub fn ttl_at(&mut self, key: &u64, ttl: Option<u32>, now: u64) -> (r: Result<(), CacheError>)
        requires
            old(self).wf(),
        ensures
            final(self).wf(),
            PaperCache::ttl_rel(*old(self), *final(self), *key, ttl, now, r),
    {
        let ghost pre = *self;
        let hashed_key = bridge::hash_raw_key(*key);
        let found = map_get(&self.objects, hashed_key);
        let mut object = match found {
            Some(object) => {
                if object.key_matches(key) && !object.is_expired(now) {
                    object
                } else {
                    return Err(CacheError::KeyNotFound);
                }
            },
            None => {
                return Err(CacheError::KeyNotFound);
            },
        };
        let entry_count = crate::map::map_len(&self.objects);
        proof {
            crate::map::lemma_map_base_sum_upper(self.map_view());
            assert(self.map_view().dom().len() * 96 <= usize::MAX as int * 96)
                by (nonlinear_arith)
                requires
                    self.map_view().dom().len() <= usize::MAX as int,
            ;
        }
        let old_expiry = object.expiry();
        let old_base_size = base_size(&object);
        object.expires(ttl, now);
        let new_expiry = object.expiry();
        let new_base_size = base_size(&object);
        let ghost mid_map = self.map_view();
        let _ = map_insert(&mut self.objects, hashed_key, object);
        proof {
            lemma_map_base_sum_remove(mid_map, hashed_key);
            lemma_map_base_sum_insert(
                mid_map.remove(hashed_key),
                hashed_key,
                self.map_view()[hashed_key],
            );
            assert(mid_map.remove(hashed_key).insert(hashed_key, self.map_view()[hashed_key])
                =~= self.map_view());
            lemma_map_base_sum_nonneg(mid_map.remove(hashed_key));
            assert(mid_map.remove(hashed_key).dom() =~= mid_map.dom().remove(hashed_key));
            assert(self.map_view().dom() =~= mid_map.dom());
            assert(self.map_view().remove(hashed_key) =~= pre.map_view().remove(hashed_key));
        }
        self.status.sub_base_used(old_base_size);
        self.status.add_base_used(new_base_size);
        if !send_event(&self.sender, WorkerEvent::Ttl(hashed_key, old_expiry, new_expiry)) {
            return Err(CacheError::Internal);
        }
        Ok(())
    }

    /// Rewrites the TTL of the object stored under `key`.  The instant is
    /// read from the system clock.
    pub fn ttl(&mut self, key: &u64, ttl: Option<u32>) -> (r: Result<(), CacheError>)
        requires
            old(self).wf(),
        ensures
            final(self).wf(),
            exists|now: u64|
                #[trigger] PaperCache::ttl_rel(*old(self), *final(self), *key, ttl, now, r),
    {
        let now = bridge::now_millis();
        let r = self.ttl_at(key, ttl, now);
        proof {
            assert(PaperCache::ttl_rel(*old(self), *self, *key, ttl, now, r));
        }
        r
    }

    /// Deletes every object and zeroes the used size, the object count
    /// and all totals; the policy configuration stands.
    pub fn wipe(&mut self) -> (r: Result<(), CacheError>)
        requires
            old(self).wf(),
        ensures
            final(self).wf(),
            final(self).map_view() == crate::map::empty_object_map(),
            final(self).status.spec_base_used_size() == 0,
            final(self).status.spec_num_objects() == 0,
            final(self).status.spec_total_gets() == 0,
            final(self).status.spec_total_hits() == 0,
            final(self).status.spec_total_sets() == 0,
            final(self).status.spec_total_dels() == 0,
            PaperCache::policy_config_unchanged(*old(self), *final(self)),
            r == Ok::<(), CacheError>(()) || r == Err::<(), CacheError>(CacheError::Internal),
    {
        map_clear(&mut self.objects);
        self.status.clear();
        proof {
            assert(self.map_view().dom().len() == 0);
            assert(crate::map::map_base_sum(self.map_view()) == 0);
        }
        if !send_event(&self.sender, WorkerEvent::Wipe) {
            return Err(CacheError::Internal);
        }
        Ok(())
    }

    /// Resizes the cache; a zero size is refused, an unchanged size does
    /// nothing, and shrinking takes effect lazily through the next
    /// eviction pass.
    pub fn resize(&mut self, max_size: CacheSize) -> (r: Result<(), CacheError>)
        requires
            old(self).wf(),
        ensures
            final(self).wf(),
            max_size == 0 ==> r == Err::<(), CacheError>(CacheError::ZeroCacheSize) && *final(self)
                == *old(self),
            max_size > 0 ==> final(self).status == (CacheStatus {
                max_size,
                ..old(self).status
            }) && final(self).map_view() == old(self).map_view() && (r == Ok::<(), CacheError>(())
                || r == Err::<(), CacheError>(CacheError::Internal)),
    {
        if max_size == 0 {
            return Err(CacheError::ZeroCacheSize);
        }
        let current_max_size = self.status.max_size();
        if max_size == current_max_size {
            return Ok(());
        }
        self.status.set_max_size(max_size);
        if !send_event(&self.sender, WorkerEvent::Resize(max_size)) {
            return Err(CacheError::Internal);
        }
        Ok(())
    }

    /// Makes `policy` active: the automatic policy turns the selector on,
    /// a configured one becomes active and turns it off, and anything
    /// else is refused.
    pub fn policy(&mut self, policy: PaperPolicy) -> (r: Result<(), CacheError>)
        requires
            old(self).wf(),
        ensures
            final(self).wf(),
            final(self).map_view() == old(self).map_view(),
            !(policy is Auto) && !spec_contains_policy(old(self).status.spec_policies(), policy)
                ==> r == Err::<(), CacheError>(CacheError::UnconfiguredPolicy) && *final(self)
                == *old(self),
            policy is Auto ==> final(self).status == (CacheStatus {
                is_auto_policy: true,
                ..old(self).status
            }) && (r == Ok::<(), CacheError>(()) || r == Err::<(), CacheError>(
                CacheError::Internal,
            )),
            !(policy is Auto) && spec_contains_policy(old(self).status.spec_policies(), policy)
                ==> final(self).status.spec_policy() == policy && !final(self).status.spec_is_auto_policy() && final(self).status == (CacheStatus {
                policy_index: final(self).status.policy_index,
                is_auto_policy: false,
                ..old(self).status
            }) && (r == Ok::<(), CacheError>(()) || r == Err::<(), CacheError>(
                CacheError::Internal,
            )),
    {
        if !policy.is_auto() && !contains_policy(self.status.policies().as_slice(), policy) {
            return Err(CacheError::UnconfiguredPolicy);
        }
        match self.status.set_policy(policy) {
            Ok(_) => (),
            Err(e) => {
                return Err(e);
            },
        }
        if !send_event(&self.sender, WorkerEvent::Policy(policy)) {
            return Err(CacheError::Internal);
        }
        Ok(())
    }

    /// Drains the queued events into the workers, judged at the instant
    /// `now`: completes a pending policy switch, steps the eviction
    /// stacks and the expiry index by each event, prunes what has
    /// expired, restores the memory bound, and perhaps lets the selector
    /// switch policy.  At most one batch of events is taken; callers
    /// drive this in a loop.
    pub fn process_worker_events_at(&mut self, now: u64) -> (r: Result<(), CacheError>)
        requires
            old(self).wf(),
        ensures
            final(self).wf(),
            !old(self).status.spec_is_auto_policy() ==> final(self).status.spec_used_size_under(
                final(self).policy_worker.current_policy,
            ) <= final(self).status.spec_max_size(),
            final(self).status.spec_max_size() == old(self).status.spec_max_size(),
            final(self).status.spec_policies() == old(self).status.spec_policies(),
            final(self).status.spec_total_gets() == old(self).status.spec_total_gets(),
            final(self).status.spec_total_hits() == old(self).status.spec_total_hits(),
            final(self).status.spec_total_sets() == old(self).status.spec_total_sets(),
            final(self).status.spec_total_dels() == old(self).status.spec_total_dels(),
            !old(self).status.spec_is_auto_policy() ==> final(self).status.spec_policy_index()
                == old(self).status.spec_policy_index() && final(self).status.spec_is_auto_policy() == old(self).status.spec_is_auto_policy(),
    {
        let max_size = self.status.max_size();
        // a reconstruction completed since the last drain is installed
        // before new events arrive
        self.policy_worker.complete_policy_switch(max_size, now);
        let mut has_current_set = false;
        let mut budget: usize = EVENT_BATCH_LIMIT;
        while budget > 0
            invariant
                self.policy_worker.wf(),
                self.ttl_worker.wf(),
                self.status.wf(),
                accounting_ok(self.map_view(), self.status),
                self.policy_worker.mini_manager.mini_stacks@.len()
                    == self.status.spec_policies().len(),
                self.status == old(self).status,
                self.map_view() == old(self).map_view(),
            decreases budget,
        {
            let event = match recv_event(&self.listener) {
                Some(event) => event,
                None => {
                    break;
                },
            };
            self.ttl_worker.handle_event(&event);
            match &event {
                WorkerEvent::Get(key, _) => self.policy_worker.handle_get(*key),
                WorkerEvent::Put(key, size, _, _) => {
                    self.policy_worker.handle_set(*key, *size);
                    has_current_set = true;
                },
                WorkerEvent::Del(key, _) => self.policy_worker.handle_del(*key),
                WorkerEvent::Wipe => self.policy_worker.handle_wipe(),
                WorkerEvent::Resize(size) => self.policy_worker.handle_resize(*size),
                WorkerEvent::Policy(policy) => {
                    let valid = match policy {
                        PaperPolicy::TwoQ(k_in, k_out) => *k_in <= crate::policy::RATIO_SCALE
                            && *k_out <= crate::policy::RATIO_SCALE && *k_in
                            <= crate::policy::RATIO_SCALE - *k_out,
                        PaperPolicy::SThreeFifo(ratio) => *ratio <= crate::policy::RATIO_SCALE,
                        _ => true,
                    };
                    if valid {
                        self.policy_worker.handle_policy(*policy);
                    }
                },
                _ => (),
            }
            if let Some(stack_event) = StackEvent::maybe_from_worker_event(&event) {
                self.policy_worker.route_stack_event(&stack_event, now);
            }
            budget = budget - 1;
        }
        if has_current_set {
            self.policy_worker.last_set_time = Some(now);
        }
        // prune what has expired, then restore the memory bound
        self.ttl_worker.expire_pass(&mut self.objects, &mut self.status, now);
        self.policy_worker.apply_evictions(&mut self.objects, &mut self.status, now);
        // perhaps let the selector switch to a better-observed policy
        let is_auto = self.status.is_auto_policy();
        let picked = self.policy_worker.perform_auto_policy(is_auto, has_current_set, now);
        match picked {
            Some(better) => {
                match self.status.set_auto_policy(better) {
                    Ok(_) => {
                        self.policy_worker.handle_policy(better);
                    },
                    Err(e) => {
                        return Err(e);
                    },
                }
            },
            None => (),
        }
        Ok(())
    }

    /// Drains the queued events into the workers.  The instant is read
    /// from the system clock.
    pub fn process_worker_events(&mut self) -> (r: Result<(), CacheError>)
        requires
            old(self).wf(),
        ensures
            final(self).wf(),
            !old(self).status.spec_is_auto_policy() ==> final(self).status.spec_used_size_under(
                final(self).policy_worker.current_policy,
            ) <= final(self).status.spec_max_size(),
            final(self).status.spec_max_size() == old(self).status.spec_max_size(),
            final(self).status.spec_policies() == old(self).status.spec_policies(),
            final(self).status.spec_total_gets() == old(self).status.spec_total_gets(),
            final(self).status.spec_total_hits() == old(self).status.spec_total_hits(),
            final(self).status.spec_total_sets() == old(self).status.spec_total_sets(),
            final(self).status.spec_total_dels() == old(self).status.spec_total_dels(),
            !old(self).status.spec_is_auto_policy() ==> final(self).status.spec_policy_index()
                == old(self).status.spec_policy_index() && final(self).status.spec_is_auto_policy() == old(self).status.spec_is_auto_policy(),
    {
        let now = bridge::now_millis();
        self.process_worker_events_at(now)
    }

    /// The polling delay before the next drain, in milliseconds: the
    /// faster of the policy worker's and the TTL worker's rates at some
    /// clock reading.
    pub fn next_poll_delay_ms(&self) -> (r: u64)
        ensures
            exists|now: u64|
                r == if self.policy_worker.spec_recent_set(#[trigger] spec_now_witness(now)) || (
                self.ttl_worker.expiries.view().len() > 0
                    && self.ttl_worker.expiries.view()[0].timestamp
                    <= crate::object::spec_saturating_instant(now, 2)) {
                    crate::worker::SHORT_POLLING_MS
                } else {
                    crate::worker::LONG_POLLING_MS
                },
    {
        let now = bridge::now_millis();
        let policy_delay = self.policy_worker.next_poll_delay_ms(now);
        let ttl_delay = self.ttl_worker.next_poll_delay_ms(now);
        let r = if policy_delay < ttl_delay {
            policy_delay
        } else {
            ttl_delay
        };
        proof {
            assert(spec_now_witness(now) == now);
        }
        r
    }
}

/// The instant a clock read stands for; it only names the witness of the
/// time-dependent contracts.
pub open spec fn spec_now_witness(now: u64) -> u64 {
    now
}

} // verus!
