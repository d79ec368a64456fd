//! The cache's counters and their public snapshot.
use vstd::prelude::*;

use crate::CacheSize;
use crate::bridge;
use crate::error::CacheError;
use crate::object::ObjectSize;
use crate::overhead::{get_policy_overhead, spec_policy_overhead};
use crate::policy::{PaperPolicy, find_policy_index, spec_contains_policy};

verus! {

/// `x + 1`, saturating at the largest counter value.
pub open spec fn spec_incr64(x: u64) -> u64 {
    if x == u64::MAX {
        x
    } else {
        (x + 1) as u64
    }
}

/// `x` truncated to a `u64`, saturating at the largest value.
pub open spec fn spec_to_u64(x: int) -> u64 {
    if x > u64::MAX {
        u64::MAX
    } else if x < 0 {
        0
    } else {
        x as u64
    }
}

/// The live counters of a cache: sizes, object count, operation totals and
/// the configured policies.  The *base used size* excludes the per-policy
/// overhead; the reported used size adds `num_objects` times the active
/// policy's overhead, so a policy switch revalues memory instantly.
pub struct CacheStatus {
    pub max_size: CacheSize,
    pub base_used_size: u128,
    pub num_objects: u64,
    pub total_hits: u64,
    pub total_gets: u64,
    pub total_sets: u64,
    pub total_dels: u64,
    pub policies: Vec<PaperPolicy>,
    pub policy_index: usize,
    pub is_auto_policy: bool,
    pub start_time: u64,
}

/// A point-in-time public snapshot of a cache's status.
pub struct Status {
    pub pid: u32,
    pub max_size: CacheSize,
    pub used_size: CacheSize,
    pub num_objects: u64,
    pub rss: u64,
    pub hwm: u64,
    pub total_hits: u64,
    pub total_gets: u64,
    pub total_sets: u64,
    pub total_dels: u64,
    pub policies: Vec<PaperPolicy>,
    pub policy: PaperPolicy,
    pub is_auto_policy: bool,
    pub uptime: u64,
}

impl CacheStatus {
    /// The configured maximum size in bytes.
    pub open spec fn spec_max_size(self) -> CacheSize {
        self.max_size
    }

    /// The sum of the stored objects' base sizes.
    pub open spec fn spec_base_used_size(self) -> u128 {
        self.base_used_size
    }

    /// The number of stored objects.
    pub open spec fn spec_num_objects(self) -> u64 {
        self.num_objects
    }

    pub open spec fn spec_total_hits(self) -> u64 {
        self.total_hits
    }

    pub open spec fn spec_total_gets(self) -> u64 {
        self.total_gets
    }

    pub open spec fn spec_total_sets(self) -> u64 {
        self.total_sets
    }

    pub open spec fn spec_total_dels(self) -> u64 {
        self.total_dels
    }

    /// The configured policies, in configuration order.
    pub open spec fn spec_policies(self) -> Seq<PaperPolicy> {
        self.policies@
    }

    /// The position of the active policy in the configured list.
    pub open spec fn spec_policy_index(self) -> int {
        self.policy_index as int
    }

    /// Whether the adaptive policy selector is on.
    pub open spec fn spec_is_auto_policy(self) -> bool {
        self.is_auto_policy
    }

    pub open spec fn spec_start_time(self) -> u64 {
        self.start_time
    }

    /// A status is well formed when its active policy index points into a
    /// non-empty configured list of valid, non-automatic policies, and no
    /// more gets have hit than were made.
    pub open spec fn wf(self) -> bool {
        &&& 0 < self.policies@.len()
        &&& self.policy_index < self.policies@.len()
        &&& self.total_hits <= self.total_gets
        &&& forall|i: int|
            0 <= i < self.policies@.len() ==> !(#[trigger] self.policies@[i] is Auto)
                && self.policies@[i].params_valid()
    }

    /// The active policy.
    pub open spec fn spec_policy(self) -> PaperPolicy {
        self.policies@[self.policy_index as int]
    }

    /// The reported used size under `policy`: the base used size plus one
    /// per-object overhead for each stored object.
    pub open spec fn spec_used_size_under(self, policy: PaperPolicy) -> int {
        self.base_used_size + self.num_objects * spec_policy_overhead(policy)
    }

    /// The reported used size under the active policy.
    pub open spec fn spec_used_size(self) -> int {
        self.spec_used_size_under(self.spec_policy())
    }

    /// Builds the counters for a cache of `max_size` bytes with the given
    /// configured policies; an automatic initial policy starts the cache on
    /// the first configured one with the selector on.
    pub fn new(max_size: CacheSize, policies: Vec<PaperPolicy>, policy: PaperPolicy, now: u64) -> (r:
        Result<CacheStatus, CacheError>)
        requires
            0 < policies@.len(),
            forall|i: int|
                0 <= i < policies@.len() ==> !(#[trigger] policies@[i] is Auto)
                    && policies@[i].params_valid(),
            policy is Auto || spec_contains_policy(policies@, policy),
        ensures
            r is Ok,
            match r {
                Ok(s) => {
                    &&& s.wf()
                    &&& s.spec_max_size() == max_size
                    &&& s.spec_base_used_size() == 0
                    &&& s.spec_num_objects() == 0
                    &&& s.spec_total_hits() == 0
                    &&& s.spec_total_gets() == 0
                    &&& s.spec_total_sets() == 0
                    &&& s.spec_total_dels() == 0
                    &&& s.spec_policies() == policies@
                    &&& s.spec_is_auto_policy() == (policy is Auto)
                    &&& s.spec_start_time() == now
                    &&& (policy is Auto ==> s.spec_policy_index() == 0)
                    &&& (!(policy is Auto) ==> s.spec_policy() == policy)
                },
                Err(_) => false,
            },
    {
        let is_auto_policy = policy.is_auto();
        let policy_index: usize = if is_auto_policy {
            0
        } else {
            match find_policy_index(policies.as_slice(), policy) {
                Some(index) => index,
                None => {
                    // the starting policy was checked to be configured
                    proof {
                        assert(false);
                    }
                    return Err(CacheError::Internal);
                },
            }
        };
        Ok(
            CacheStatus {
                max_size,
                base_used_size: 0,
                num_objects: 0,
                total_hits: 0,
                total_gets: 0,
                total_sets: 0,
                total_dels: 0,
                policies,
                policy_index,
                is_auto_policy,
                start_time: now,
            },
        )
    }

    pub fn max_size(&self) -> (r: CacheSize)
        ensures
            r == self.spec_max_size(),
    {
        self.max_size
    }

    /// The reported used size under `policy`, saturating at `u64::MAX`.
    pub fn used_size(&self, policy: &PaperPolicy) -> (r: CacheSize)
        ensures
            r == spec_to_u64(self.spec_used_size_under(*policy)),
    {
        let overhead = get_policy_overhead(policy) as u128;
        let count = self.num_objects as u128;
        proof {
            assert(count * overhead <= u64::MAX as u128 * u32::MAX as u128) by (nonlinear_arith)
                requires
                    count <= u64::MAX as u128,
                    overhead <= u32::MAX as u128,
            ;
        }
        let total = self.base_used_size.saturating_add(count * overhead);
        if total > u64::MAX as u128 {
            u64::MAX
        } else {
            total as u64
        }
    }

    pub fn policies(&self) -> (r: &Vec<PaperPolicy>)
        ensures
            r@ == self.spec_policies(),
    {
        &self.policies
    }

    /// The active policy.
    pub fn policy(&self) -> (r: PaperPolicy)
        requires
            self.wf(),
        ensures
            r == self.spec_policy(),
    {
        self.policies[self.policy_index]
    }

    pub fn is_auto_policy(&self) -> (r: bool)
        ensures
            r == self.spec_is_auto_policy(),
    {
        self.is_auto_policy
    }

    pub fn num_objects(&self) -> (r: u64)
        ensures
            r == self.spec_num_objects(),
    {
        self.num_objects
    }

    pub fn total_gets(&self) -> (r: u64)
        ensures
            r == self.spec_total_gets(),
    {
        self.total_gets
    }

    /// Counts one get that hit.
    pub fn incr_hits(&mut self)
        ensures
            *final(self) == (CacheStatus {
                total_gets: spec_incr64(old(self).total_gets),
                total_hits: spec_incr64(old(self).total_hits),
                ..*old(self)
            }),
    {
        self.total_gets = incr64(self.total_gets);
        self.total_hits = incr64(self.total_hits);
    }

    /// Counts one get that missed.
    pub fn incr_misses(&mut self)
        ensures
            *final(self) == (CacheStatus { total_gets: spec_incr64(old(self).total_gets), ..*old(self) }),
    {
        self.total_gets = incr64(self.total_gets);
    }

    pub fn incr_sets(&mut self)
        ensures
            *final(self) == (CacheStatus { total_sets: spec_incr64(old(self).total_sets), ..*old(self) }),
    {
        self.total_sets = incr64(self.total_sets);
    }

    pub fn incr_dels(&mut self)
        ensures
            *final(self) == (CacheStatus { total_dels: spec_incr64(old(self).total_dels), ..*old(self) }),
    {
        self.total_dels = incr64(self.total_dels);
    }

    pub fn set_max_size(&mut self, max_size: CacheSize)
        ensures
            *final(self) == (CacheStatus { max_size, ..*old(self) }),
    {
        self.max_size = max_size;
    }

    /// Adds one object's base size to the used-size ledger.
    pub fn add_base_used(&mut self, size: ObjectSize)
        requires
            old(self).base_used_size + size <= u128::MAX,
        ensures
            *final(self) == (CacheStatus {
                base_used_size: (old(self).base_used_size + size) as u128,
                ..*old(self)
            }),
    {
        self.base_used_size = self.base_used_size + size as u128;
    }

    /// Removes one object's base size from the used-size ledger.
    pub fn sub_base_used(&mut self, size: ObjectSize)
        requires
            size <= old(self).base_used_size,
        ensures
            *final(self) == (CacheStatus {
                base_used_size: (old(self).base_used_size - size) as u128,
                ..*old(self)
            }),
    {
        self.base_used_size = self.base_used_size - size as u128;
    }

    /// Counts one stored object more.
    pub fn incr_num_objects(&mut self)
        requires
            old(self).num_objects < u64::MAX,
        ensures
            *final(self) == (CacheStatus {
                num_objects: (old(self).num_objects + 1) as u64,
                ..*old(self)
            }),
    {
        self.num_objects = self.num_objects + 1;
    }

    /// Counts one stored object fewer.
    pub fn decr_num_objects(&mut self)
        requires
            old(self).num_objects > 0,
        ensures
            *final(self) == (CacheStatus {
                num_objects: (old(self).num_objects - 1) as u64,
                ..*old(self)
            }),
    {
        self.num_objects = self.num_objects - 1;
    }

    /// Makes `policy` active.  An automatic `policy` only turns the
    /// selector on; a concrete one must be configured, becomes active and
    /// turns the selector off.
    pub fn set_policy(&mut self, policy: PaperPolicy) -> (r: Result<(), CacheError>)
        requires
            old(self).wf(),
            policy is Auto || spec_contains_policy(old(self).spec_policies(), policy),
        ensures
            final(self).wf(),
            policy is Auto ==> *final(self) == (CacheStatus { is_auto_policy: true, ..*old(self) }),
            !(policy is Auto) ==> {
                &&& final(self).spec_policy() == policy
                &&& final(self).is_auto_policy == false
                &&& *final(self) == (CacheStatus {
                    policy_index: final(self).policy_index,
                    is_auto_policy: false,
                    ..*old(self)
                })
            },
            r is Ok,
    {
        if policy.is_auto() {
            self.is_auto_policy = true;
            return Ok(());
        }
        match find_policy_index(self.policies.as_slice(), policy) {
            Some(index) => {
                self.policy_index = index;
                self.is_auto_policy = false;
                Ok(())
            },
            None => Err(CacheError::Internal),
        }
    }

    /// Makes `policy` active on behalf of the selector, leaving the
    /// selector on.  `policy` must be configured and not the automatic one.
    pub fn set_auto_policy(&mut self, policy: PaperPolicy) -> (r: Result<(), CacheError>)
        requires
            old(self).wf(),
        ensures
            final(self).wf(),
            match r {
                Ok(_) => {
                    &&& !(policy is Auto)
                    &&& spec_contains_policy(old(self).spec_policies(), policy)
                    &&& final(self).spec_policy() == policy
                    &&& *final(self) == (CacheStatus {
                        policy_index: final(self).policy_index,
                        ..*old(self)
                    })
                },
                Err(e) => e is Internal && *final(self) == *old(self),
            },
    {
        if policy.is_auto() {
            return Err(CacheError::Internal);
        }
        match find_policy_index(self.policies.as_slice(), policy) {
            Some(index) => {
                self.policy_index = index;
                Ok(())
            },
            None => Err(CacheError::Internal),
        }
    }

    /// Whether the used size under `policy` exceeds `max_size`, compared
    /// exactly.
    pub fn used_size_exceeds(&self, policy: &PaperPolicy, max_size: CacheSize) -> (r: bool)
        ensures
            r == (self.spec_used_size_under(*policy) > max_size),
    {
        let overhead = get_policy_overhead(policy) as u128;
        let count = self.num_objects as u128;
        proof {
            assert(count * overhead <= u64::MAX as u128 * u32::MAX as u128) by (nonlinear_arith)
                requires
                    count <= u64::MAX as u128,
                    overhead <= u32::MAX as u128,
            ;
        }
        let total = self.base_used_size.saturating_add(count * overhead);
        if total == u128::MAX {
            return true;
        }
        total > max_size as u128
    }

    /// Whether an object of base size `size` could never fit the cache.
    pub fn exceeds_max_size(&self, size: ObjectSize) -> (r: bool)
        ensures
            r == (size > self.spec_max_size()),
    {
        size as CacheSize > self.max_size
    }

    /// Zeroes the used size, the object count and all operation totals.
    pub fn clear(&mut self)
        ensures
            *final(self) == (CacheStatus {
                base_used_size: 0,
                num_objects: 0,
                total_hits: 0,
                total_gets: 0,
                total_sets: 0,
                total_dels: 0,
                ..*old(self)
            }),
    {
        self.base_used_size = 0;
        self.num_objects = 0;
        self.total_hits = 0;
        self.total_gets = 0;
        self.total_sets = 0;
        self.total_dels = 0;
    }

    /// Takes a public snapshot of the counters.  The process memory
    /// readings come from the system; where one cannot be read the
    /// snapshot is refused with an internal error, as a broken system
    /// facility is no normal path.
    pub fn try_to_status(&self, now: u64) -> (r: Result<Status, CacheError>)
        requires
            self.wf(),
        ensures
            match r {
                Ok(s) => {
                    &&& s.max_size == self.spec_max_size()
                    &&& s.used_size == spec_to_u64(self.spec_used_size())
                    &&& s.num_objects == self.spec_num_objects()
                    &&& s.total_hits == self.spec_total_hits()
                    &&& s.total_gets == self.spec_total_gets()
                    &&& s.total_sets == self.spec_total_sets()
                    &&& s.total_dels == self.spec_total_dels()
                    &&& s.policies@ == self.spec_policies()
                    &&& s.policy == self.spec_policy()
                    &&& s.is_auto_policy == self.spec_is_auto_policy()
                },
                Err(e) => e is Internal,
            },
    {
        let policy = self.policy();
        let Some(rss) = bridge::process_rss() else {
            return Err(CacheError::Internal);
        };
        let Some(hwm) = bridge::process_hwm() else {
            return Err(CacheError::Internal);
        };
        let mut policies: Vec<PaperPolicy> = Vec::new();
        let n = self.policies.len();
        let mut i: usize = 0;
        while i < n
            invariant
                0 <= i <= n,
                n == self.policies@.len(),
                policies@ == self.policies@.subrange(0, i as int),
            decreases n - i,
        {
            policies.push(self.policies[i]);
            proof {
                assert(policies@ =~= self.policies@.subrange(0, i + 1));
            }
            i = i + 1;
        }
        proof {
            assert(policies@ =~= self.policies@);
        }
        let status = Status {
            pid: 0,
            max_size: self.max_size,
            used_size: self.used_size(&policy),
            num_objects: self.num_objects,
            rss,
            hwm,
            total_hits: self.total_hits,
            total_gets: self.total_gets,
            total_sets: self.total_sets,
            total_dels: self.total_dels,
            policies,
            policy,
            is_auto_policy: self.is_auto_policy,
            uptime: now.saturating_sub(self.start_time),
        };
        Ok(status)
    }
}

/// `x + 1`, saturating at the largest counter value.
pub fn incr64(x: u64) -> (r: u64)
    ensures
        r == spec_incr64(x),
{
    if x == u64::MAX {
        x
    } else {
        x + 1
    }
}

impl Status {
    /// The process id of the embedding process; the core reports zero and
    /// an embedding shell may fill it.
    pub fn pid(&self) -> (r: u32)
        ensures
            r == self.pid,
    {
        self.pid
    }

    /// The configured maximum size in bytes.
    pub fn max_size(&self) -> (r: CacheSize)
        ensures
            r == self.max_size,
    {
        self.max_size
    }

    /// The used size in bytes under the active policy at snapshot time.
    pub fn used_size(&self) -> (r: CacheSize)
        ensures
            r == self.used_size,
    {
        self.used_size
    }

    /// The number of stored objects at snapshot time.
    pub fn num_objects(&self) -> (r: u64)
        ensures
            r == self.num_objects,
    {
        self.num_objects
    }

    /// The process resident set size in bytes.
    pub fn rss(&self) -> (r: u64)
        ensures
            r == self.rss,
    {
        self.rss
    }

    /// The process resident set size high-water mark in bytes.
    pub fn hwm(&self) -> (r: u64)
        ensures
            r == self.hwm,
    {
        self.hwm
    }

    /// The total number of gets that hit.
    pub fn total_hits(&self) -> (r: u64)
        ensures
            r == self.total_hits,
    {
        self.total_hits
    }

    /// The total number of gets.
    pub fn total_gets(&self) -> (r: u64)
        ensures
            r == self.total_gets,
    {
        self.total_gets
    }

    /// The total number of sets.
    pub fn total_sets(&self) -> (r: u64)
        ensures
            r == self.total_sets,
    {
        self.total_sets
    }

    /// The total number of dels.
    pub fn total_dels(&self) -> (r: u64)
        ensures
            r == self.total_dels,
    {
        self.total_dels
    }

    /// The configured policies, in configuration order.
    pub fn policies(&self) -> (r: &Vec<PaperPolicy>)
        ensures
            r@ == self.policies@,
    {
        &self.policies
    }

    /// The policy that was active at snapshot time.
    pub fn policy(&self) -> (r: PaperPolicy)
        ensures
            r == self.policy,
    {
        self.policy
    }

    /// Whether the adaptive policy selector was on at snapshot time.
    pub fn is_auto_policy(&self) -> (r: bool)
        ensures
            r == self.is_auto_policy,
    {
        self.is_auto_policy
    }

    /// The cache's age at snapshot time, in milliseconds.
    pub fn uptime(&self) -> (r: u64)
        ensures
            r == self.uptime,
    {
        self.uptime
    }
}

} // verus!
