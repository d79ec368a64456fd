//! The workers' decision logic: how each event steps the active stack,
//! the shadow stacks, the trace log and the expiry index, the eviction
//! pass that restores the memory bound, the online policy switch, and
//! the adaptive policy selection.
use vstd::prelude::*;

use std::hash::RandomState;

use dashmap::DashMap;

use crate::CacheSize;
use crate::events::{StackEvent, WorkerEvent};
use crate::expiries::Expiries;
use crate::map::{EraseKey, accounting_ok, erase, object_map_view};
use crate::mini_stack::MiniStackManager;
use crate::object::Object;
use crate::policy::PaperPolicy;
use crate::stack::{PolicyStack, init_policy_stack, lemma_evict_some_shrinks};
use crate::status::CacheStatus;
use crate::trace::TraceLog;

verus! {

/// How long the adaptive selector waits between polls, in milliseconds:
/// one hour.
pub const AUTO_POLICY_DURATION_MS: u64 = 3_600_000;

/// How recently a set must have happened for the fast polling rate, in
/// milliseconds.
pub const SET_RECENCY_DURATION_MS: u64 = 5_000;

/// The fast polling interval, in milliseconds.
pub const SHORT_POLLING_MS: u64 = 1;

/// The slow polling interval, in milliseconds.
pub const LONG_POLLING_MS: u64 = 1_000;

/// The policy worker: the active eviction stack, the shadow stacks, the
/// trace log, and the switch machinery.  During a policy switch the
/// active stack is detached, the chosen shadow stack serves evictions,
/// and stack events gather in a buffer until the reconstructed stack
/// arrives.
pub struct PolicyWorker {
    pub policy_stack: Option<PolicyStack>,
    pub mini_manager: MiniStackManager,
    pub mini_index: Option<usize>,
    pub current_policy: PaperPolicy,
    pub pending_policy: Option<PaperPolicy>,
    pub buffered_events: Vec<StackEvent>,
    pub trace_log: TraceLog,
    pub last_auto_policy_time: Option<u64>,
    pub last_set_time: Option<u64>,
}

impl PolicyWorker {
    /// The worker is well formed when exactly one of the active stack and
    /// the interim shadow index is populated, the interim index is in
    /// range, and every part keeps its own invariant.
    pub open spec fn wf(self) -> bool {
        &&& (self.policy_stack is Some <==> self.mini_index is None)
        &&& (self.mini_index is Some <==> self.pending_policy is Some)
        &&& (self.policy_stack matches Some(stack) ==> stack.wf())
        &&& (self.mini_index matches Some(i) ==> i < self.mini_manager.mini_stacks@.len())
        &&& (self.pending_policy matches Some(p) ==> p.params_valid() && !(p is Auto))
        &&& self.mini_manager.wf()
        &&& self.trace_log.wf()
        &&& self.current_policy.params_valid()
        &&& !(self.current_policy is Auto)
    }

    /// Builds the worker for a fresh cache: an empty active stack of the
    /// starting policy, one empty shadow stack per configured policy, and
    /// a trace log opened with the initial cache size on record.
    pub fn new(policies: &Vec<PaperPolicy>, policy: PaperPolicy, max_size: CacheSize, now: u64) -> (r:
        PolicyWorker)
        requires
            policy.params_valid(),
            !(policy is Auto),
            forall|i: int|
                0 <= i < policies@.len() ==> (#[trigger] policies@[i]).params_valid() && !(
                policies@[i] is Auto),
        ensures
            r.wf(),
            r.current_policy == policy,
            r.policy_stack matches Some(stack) && stack.spec_is_empty(),
            r.mini_manager.mini_stacks@.len() == policies@.len(),
    {
        let mut trace_log = TraceLog::new();
        // the initial size is on record so a reconstruction after a
        // resize starts from the right bound
        trace_log.handle_event(&StackEvent::Resize(max_size), now);
        PolicyWorker {
            policy_stack: Some(init_policy_stack(&policy, max_size)),
            mini_manager: MiniStackManager::new(policies, max_size),
            mini_index: None,
            current_policy: policy,
            pending_policy: None,
            buffered_events: Vec::new(),
            trace_log,
            last_auto_policy_time: None,
            last_set_time: None,
        }
    }

    /// Steps the active stack (where attached) and every shadow stack by
    /// a get that hit.
    pub fn handle_get(&mut self, key: u64)
        requires
            old(self).wf(),
        ensures
            final(self).wf(),
            final(self).current_policy == old(self).current_policy,
            old(self).policy_stack matches Some(pre) ==> final(self).policy_stack matches Some(
                post,
            ) && PolicyStack::update_rel(pre, post, key),
            old(self).policy_stack is None ==> final(self).policy_stack is None,
            final(self).mini_manager.mini_stacks@.len() == old(
                self,
            ).mini_manager.mini_stacks@.len(),
            final(self).mini_manager.total_gets == crate::status::spec_incr64(
                old(self).mini_manager.total_gets,
            ),
            !crate::mini_stack::spec_should_sample(key) ==> final(self).mini_manager.mini_stacks@
                == old(self).mini_manager.mini_stacks@,
            crate::mini_stack::spec_should_sample(key) ==> forall|i: int|
                0 <= i < old(self).mini_manager.mini_stacks@.len()
                    ==> crate::mini_stack::mini_update_count_rel(
                    #[trigger] old(self).mini_manager.mini_stacks@[i],
                    final(self).mini_manager.mini_stacks@[i],
                    key,
                ),
    {
        match &mut self.policy_stack {
            Some(stack) => stack.update(key),
            None => (),
        }
        self.mini_manager.handle_get(key);
    }

    /// Steps the active stack (where attached) and every shadow stack by
    /// a set.
    pub fn handle_set(&mut self, key: u64, size: u32)
        requires
            old(self).wf(),
        ensures
            final(self).wf(),
            final(self).current_policy == old(self).current_policy,
            old(self).policy_stack matches Some(pre) ==> final(self).policy_stack matches Some(
                post,
            ) && PolicyStack::insert_rel(pre, post, key, size),
            old(self).policy_stack is None ==> final(self).policy_stack is None,
            final(self).mini_manager.mini_stacks@.len() == old(
                self,
            ).mini_manager.mini_stacks@.len(),
            !crate::mini_stack::spec_should_sample(key) ==> final(self).mini_manager == old(
                self,
            ).mini_manager,
            crate::mini_stack::spec_should_sample(key) ==> forall|i: int|
                0 <= i < old(self).mini_manager.mini_stacks@.len()
                    ==> crate::mini_stack::mini_insert_rel(
                    #[trigger] old(self).mini_manager.mini_stacks@[i],
                    final(self).mini_manager.mini_stacks@[i],
                    key,
                    size,
                ),
    {
        match &mut self.policy_stack {
            Some(stack) => stack.insert(key, size),
            None => (),
        }
        self.mini_manager.handle_set(key, size);
    }

    /// Steps the active stack (where attached) and every shadow stack by
    /// a delete.
    pub fn handle_del(&mut self, key: u64)
        requires
            old(self).wf(),
        ensures
            final(self).wf(),
            final(self).current_policy == old(self).current_policy,
            old(self).policy_stack matches Some(pre) ==> final(self).policy_stack matches Some(
                post,
            ) && PolicyStack::remove_rel(pre, post, key),
            old(self).policy_stack is None ==> final(self).policy_stack is None,
            final(self).mini_manager.mini_stacks@.len() == old(
                self,
            ).mini_manager.mini_stacks@.len(),
            !crate::mini_stack::spec_should_sample(key) ==> final(self).mini_manager == old(
                self,
            ).mini_manager,
            crate::mini_stack::spec_should_sample(key) ==> forall|i: int|
                0 <= i < old(self).mini_manager.mini_stacks@.len()
                    ==> crate::mini_stack::mini_remove_rel(
                    #[trigger] old(self).mini_manager.mini_stacks@[i],
                    final(self).mini_manager.mini_stacks@[i],
                    key,
                ),
    {
        match &mut self.policy_stack {
            Some(stack) => stack.remove(key),
            None => (),
        }
        self.mini_manager.handle_del(key);
    }

    /// Resizes the active stack (where attached) and every shadow stack.
    pub fn handle_resize(&mut self, size: CacheSize)
        requires
            old(self).wf(),
        ensures
            final(self).wf(),
            final(self).current_policy == old(self).current_policy,
            final(self).mini_manager.mini_stacks@.len() == old(
                self,
            ).mini_manager.mini_stacks@.len(),
            old(self).policy_stack matches Some(pre) ==> final(self).policy_stack matches Some(
                post,
            ) && PolicyStack::resize_rel(pre, post, size),
            old(self).policy_stack is None ==> final(self).policy_stack is None,
            forall|i: int|
                0 <= i < old(self).mini_manager.mini_stacks@.len()
                    ==> crate::mini_stack::mini_resize_rel(
                    #[trigger] old(self).mini_manager.mini_stacks@[i],
                    final(self).mini_manager.mini_stacks@[i],
                    crate::mini_stack::spec_mini_stack_size(size),
                ),
    {
        match &mut self.policy_stack {
            Some(stack) => stack.resize(size),
            None => (),
        }
        self.mini_manager.handle_resize(size);
    }

    /// Clears the active stack (where attached) and every shadow stack.
    pub fn handle_wipe(&mut self)
        requires
            old(self).wf(),
        ensures
            final(self).wf(),
            final(self).current_policy == old(self).current_policy,
            old(self).policy_stack matches Some(_) ==> final(self).policy_stack matches Some(post)
                && post.spec_is_empty(),
            final(self).mini_manager.mini_stacks@.len() == old(
                self,
            ).mini_manager.mini_stacks@.len(),
            final(self).mini_manager.total_gets == 0,
            forall|i: int|
                0 <= i < old(self).mini_manager.mini_stacks@.len()
                    ==> crate::mini_stack::mini_clear_rel(
                    #[trigger] old(self).mini_manager.mini_stacks@[i],
                    final(self).mini_manager.mini_stacks@[i],
                ),
    {
        match &mut self.policy_stack {
            Some(stack) => stack.clear(),
            None => (),
        }
        self.mini_manager.handle_wipe();
    }

    /// Begins a policy switch: the new policy becomes current, the active
    /// stack is detached, and its shadow stack serves evictions until the
    /// reconstruction of `complete_policy_switch` installs a full stack.
    /// The automatic policy and the policy already current change
    /// nothing.
    pub fn handle_policy(&mut self, policy: PaperPolicy)
        requires
            old(self).wf(),
            policy.params_valid(),
            old(self).mini_manager.mini_stacks@.len() > 0,
        ensures
            final(self).wf(),
            (policy is Auto || policy == old(self).current_policy) ==> *final(self) == *old(self),
            !(policy is Auto || policy == old(self).current_policy) ==> {
                &&& final(self).current_policy == policy
                &&& final(self).policy_stack is None
                &&& final(self).pending_policy == Some(policy)
                &&& final(self).mini_manager == old(self).mini_manager
                &&& final(self).buffered_events == old(self).buffered_events
                &&& final(self).trace_log == old(self).trace_log
                &&& (final(self).mini_index matches Some(i) && ((exists|j: int|
                    0 <= j < old(self).mini_manager.mini_stacks@.len() && (
                    #[trigger] old(self).mini_manager.mini_stacks@[j]).stack.spec_policy_of()
                        == policy) ==> old(self).mini_manager.mini_stacks@[i as int].stack.spec_policy_of()
                    == policy))
            },
            final(self).mini_manager.mini_stacks@.len() == old(
                self,
            ).mini_manager.mini_stacks@.len(),
    {
        if policy.is_auto() {
            return;
        }
        if policy == self.current_policy {
            return;
        }
        self.current_policy = policy;
        let index = self.mini_manager.get_index(&policy);
        self.policy_stack = None;
        self.mini_index = Some(index);
        self.pending_policy = Some(policy);
    }

    /// Completes a pending policy switch: rebuilds a full stack of the
    /// pending policy from the trace log, drains the buffered events into
    /// it, installs it, and hands the buffer to the trace log.  Without a
    /// pending switch nothing happens.
    pub fn complete_policy_switch(&mut self, max_size: CacheSize, now: u64)
        requires
            old(self).wf(),
        ensures
            final(self).wf(),
            final(self).current_policy == old(self).current_policy,
            final(self).policy_stack is Some,
            final(self).mini_manager.mini_stacks@.len() == old(
                self,
            ).mini_manager.mini_stacks@.len(),
            old(self).pending_policy is None ==> *final(self) == *old(self),
            old(self).pending_policy matches Some(pending) ==> {
                &&& exists|empty: PolicyStack, rebuilt: PolicyStack|
                    {
                        &&& empty.wf()
                        &&& empty.spec_is_empty()
                        &&& empty.spec_policy_of() == pending
                        &&& #[trigger] crate::trace::trace_replay_rel(
                            crate::trace::log_events_upto(
                                old(self).trace_log.fragments@,
                                old(self).trace_log.fragments@.len() as int,
                            ),
                            empty,
                            rebuilt,
                        )
                        &&& stack_replay_rel(
                            old(self).buffered_events@,
                            rebuilt,
                            final(self).policy_stack->0,
                        )
                    }
                &&& log_flush_rel(
                    old(self).buffered_events@,
                    old(self).trace_log.fragments@,
                    final(self).trace_log.fragments@,
                    now,
                )
                &&& final(self).buffered_events@.len() == 0
                &&& final(self).mini_index is None
                &&& final(self).pending_policy is None
                &&& final(self).mini_manager == old(self).mini_manager
                &&& final(self).last_auto_policy_time == old(self).last_auto_policy_time
                &&& final(self).last_set_time == old(self).last_set_time
            },
    {
        let pending = match self.pending_policy {
            Some(policy) => policy,
            None => {
                match &self.policy_stack {
                    Some(_) => {
                        return;
                    },
                    None => {
                        proof {
                            assert(false);
                        }
                        return;
                    },
                }
            },
        };
        let mut stack = crate::trace::reconstruct_policy_stack(&pending, max_size, &self.trace_log);
        let ghost rebuilt = stack;
        let ghost empty_stack = choose|empty: PolicyStack|
            {
                &&& #[trigger] empty.wf()
                &&& empty.spec_is_empty()
                &&& (!(pending is Auto) ==> empty.spec_policy_of() == pending)
                &&& crate::trace::trace_replay_rel(
                    crate::trace::log_events_upto(
                        self.trace_log.fragments@,
                        self.trace_log.fragments@.len() as int,
                    ),
                    empty,
                    rebuilt,
                )
            };
        // replay what gathered while the reconstruction ran
        let buffered_count = self.buffered_events.len();
        let mut i: usize = 0;
        while i < buffered_count
            invariant
                stack.wf(),
                buffered_count == self.buffered_events@.len(),
                0 <= i <= buffered_count,
                stack_replay_rel(self.buffered_events@.subrange(0, i as int), rebuilt, stack),
            decreases buffered_count - i,
        {
            let ghost pre_stack = stack;
            let event = self.buffered_events[i];
            match event {
                StackEvent::Get(key) => stack.update(key),
                StackEvent::Put(key, size) => stack.insert(key, size),
                StackEvent::Del(key) => stack.remove(key),
                StackEvent::Wipe => stack.clear(),
                StackEvent::Resize(size) => stack.resize(size),
            }
            proof {
                lemma_stack_replay_snoc(
                    self.buffered_events@.subrange(0, i as int),
                    rebuilt,
                    pre_stack,
                    stack,
                    event,
                );
                assert(self.buffered_events@.subrange(0, i as int).push(event)
                    =~= self.buffered_events@.subrange(0, i + 1));
            }
            i = i + 1;
        }
        proof {
            assert(self.buffered_events@.subrange(0, buffered_count as int)
                =~= self.buffered_events@);
        }
        self.policy_stack = Some(stack);
        self.mini_index = None;
        self.pending_policy = None;
        // the buffer now belongs on the trace
        let ghost flush_start = self.trace_log.fragments@;
        let mut j: usize = 0;
        while j < buffered_count
            invariant
                self.trace_log.wf(),
                buffered_count == self.buffered_events@.len(),
                self.buffered_events == old(self).buffered_events,
                0 <= j <= buffered_count,
                self.wf(),
                self.current_policy == old(self).current_policy,
                self.policy_stack is Some,
                self.mini_manager.mini_stacks@.len() == old(
                    self,
                ).mini_manager.mini_stacks@.len(),
                self.mini_manager == old(self).mini_manager,
                self.policy_stack == Some(stack),
                self.mini_index is None,
                self.pending_policy is None,
                self.last_auto_policy_time == old(self).last_auto_policy_time,
                self.last_set_time == old(self).last_set_time,
                log_flush_rel(
                    self.buffered_events@.subrange(0, j as int),
                    flush_start,
                    self.trace_log.fragments@,
                    now,
                ),
            decreases buffered_count - j,
        {
            let ghost pre_log = self.trace_log.fragments@;
            let event = self.buffered_events[j];
            self.trace_log.handle_event(&event, now);
            proof {
                lemma_log_flush_snoc(
                    self.buffered_events@.subrange(0, j as int),
                    flush_start,
                    pre_log,
                    self.trace_log.fragments@,
                    event,
                    now,
                );
                assert(self.buffered_events@.subrange(0, j as int).push(event)
                    =~= self.buffered_events@.subrange(0, j + 1));
            }
            j = j + 1;
        }
        proof {
            assert(self.buffered_events@.subrange(0, buffered_count as int)
                =~= self.buffered_events@);
            assert(flush_start == old(self).trace_log.fragments@);
            assert(empty_stack.spec_policy_of() == pending);
            assert(crate::trace::trace_replay_rel(
                crate::trace::log_events_upto(
                    old(self).trace_log.fragments@,
                    old(self).trace_log.fragments@.len() as int,
                ),
                empty_stack,
                rebuilt,
            ));
            assert(stack_replay_rel(old(self).buffered_events@, rebuilt, stack));
        }
        self.buffered_events.clear();
    }

    /// Routes one stack event: onto the trace log while an active stack
    /// stands, into the buffer while a reconstruction runs.
    pub fn route_stack_event(&mut self, event: &StackEvent, now: u64)
        requires
            old(self).wf(),
        ensures
            final(self).wf(),
            old(self).policy_stack is Some ==> {
                &&& crate::trace::log_handle_rel(
                    old(self).trace_log.fragments@,
                    final(self).trace_log.fragments@,
                    *event,
                    now,
                )
                &&& final(self).buffered_events == old(self).buffered_events
                &&& *final(self) == (PolicyWorker {
                    trace_log: final(self).trace_log,
                    ..*old(self)
                })
            },
            old(self).policy_stack is None ==> final(self).buffered_events@ == old(
                self,
            ).buffered_events@.push(*event) && *final(self) == (PolicyWorker {
                buffered_events: final(self).buffered_events,
                ..*old(self)
            }),
    {
        match &self.policy_stack {
            Some(_) => {
                self.trace_log.handle_event(event, now);
            },
            None => {
                self.buffered_events.push(*event);
            },
        }
    }

    /// Runs the eviction pass: evicts by the active stack — or, during a
    /// switch, by the interim shadow stack — and removes the surrendered
    /// objects until the used size under the current policy is within the
    /// bound; a stack with nothing to offer falls back to removing any
    /// object, so the bound always lands.
    pub fn apply_evictions(
        &mut self,
        objects: &mut DashMap<u64, Object, RandomState>,
        status: &mut CacheStatus,
        now: u64,
    )
        requires
            old(self).wf(),
            accounting_ok(object_map_view(*old(objects)), *old(status)),
        ensures
            final(self).wf(),
            accounting_ok(object_map_view(*final(objects)), *final(status)),
            final(self).current_policy == old(self).current_policy,
            final(status).spec_used_size_under(final(self).current_policy) <= final(status).spec_max_size(),
            final(status).spec_max_size() == old(status).spec_max_size(),
            final(status).spec_policies() == old(status).spec_policies(),
            final(status).spec_policy_index() == old(status).spec_policy_index(),
            final(status).spec_is_auto_policy() == old(status).spec_is_auto_policy(),
            final(status).spec_total_gets() == old(status).spec_total_gets(),
            final(status).spec_total_hits() == old(status).spec_total_hits(),
            final(status).spec_total_sets() == old(status).spec_total_sets(),
            final(status).spec_total_dels() == old(status).spec_total_dels(),
            final(self).policy_stack is Some <==> old(self).policy_stack is Some,
            final(self).mini_manager.mini_stacks@.len() == old(
                self,
            ).mini_manager.mini_stacks@.len(),
    {
        let policy = self.current_policy;
        let max_size = status.max_size();
        let mut evictions: Vec<u64> = Vec::new();
        let use_mini = self.mini_index.is_some();
        loop
            invariant
                self.wf(),
                accounting_ok(object_map_view(*objects), *status),
                self.current_policy == old(self).current_policy,
                policy == self.current_policy,
                max_size == status.spec_max_size(),
                status.spec_max_size() == old(status).spec_max_size(),
                status.spec_policies() == old(status).spec_policies(),
                status.spec_policy_index() == old(status).spec_policy_index(),
                status.spec_is_auto_policy() == old(status).spec_is_auto_policy(),
                status.spec_total_gets() == old(status).spec_total_gets(),
                status.spec_total_hits() == old(status).spec_total_hits(),
                status.spec_total_sets() == old(status).spec_total_sets(),
                status.spec_total_dels() == old(status).spec_total_dels(),
                use_mini == (self.mini_index is Some),
                self.policy_stack is Some <==> old(self).policy_stack is Some,
                self.mini_manager.mini_stacks@.len() == old(
                    self,
                ).mini_manager.mini_stacks@.len(),
            ensures
                self.wf(),
                accounting_ok(object_map_view(*objects), *status),
                self.current_policy == old(self).current_policy,
                status.spec_used_size_under(policy) <= max_size,
                max_size == status.spec_max_size(),
                status.spec_max_size() == old(status).spec_max_size(),
                status.spec_policies() == old(status).spec_policies(),
                status.spec_policy_index() == old(status).spec_policy_index(),
                status.spec_is_auto_policy() == old(status).spec_is_auto_policy(),
                status.spec_total_gets() == old(status).spec_total_gets(),
                status.spec_total_hits() == old(status).spec_total_hits(),
                status.spec_total_sets() == old(status).spec_total_sets(),
                status.spec_total_dels() == old(status).spec_total_dels(),
                use_mini == (self.mini_index is Some),
                self.policy_stack is Some <==> old(self).policy_stack is Some,
                self.mini_manager.mini_stacks@.len() == old(
                    self,
                ).mini_manager.mini_stacks@.len(),
            decreases
                    object_map_view(*objects).len(),
                    (if use_mini {
                        self.mini_manager.mini_stacks@[self.mini_index->0 as int].stack.spec_len()
                    } else {
                        (match &self.policy_stack {
                            Some(stack) => stack.spec_len(),
                            None => 0,
                        })
                    }),
        {
            if !status.used_size_exceeds(&policy, max_size) {
                break;
            }
            let ghost pre_map = object_map_view(*objects);
            let ghost pre_len = pre_map.len();
            let ghost pre_stack_len: int = if use_mini {
                self.mini_manager.mini_stacks@[self.mini_index->0 as int].stack.spec_len()
            } else {
                match &self.policy_stack {
                    Some(stack) => stack.spec_len(),
                    None => 0,
                }
            };
            let maybe_key: Option<u64> = if use_mini {
                let index = match self.mini_index {
                    Some(index) => index,
                    None => {
                        proof {
                            assert(false);
                        }
                        0
                    },
                };
                let ghost pre_mini = self.mini_manager.mini_stacks@[index as int].stack;
                let r = self.mini_manager.get_eviction(index);
                proof {
                    if r is Some {
                        lemma_evict_some_shrinks(
                            pre_mini,
                            self.mini_manager.mini_stacks@[index as int].stack,
                            r->0,
                        );
                    }
                }
                r
            } else {
                match &mut self.policy_stack {
                    Some(stack) => {
                        let ghost pre_stack = *stack;
                        let r = stack.evict_one();
                        proof {
                            if r is Some {
                                lemma_evict_some_shrinks(pre_stack, *stack, r->0);
                            }
                        }
                        r
                    },
                    None => {
                        proof {
                            assert(false);
                        }
                        None
                    },
                }
            };
            proof {
                if maybe_key is None {
                    // the stack ran out: the map cannot be empty, else the
                    // used size would already be zero
                    if pre_map.len() == 0 {
                        assert(pre_map.dom().len() == 0);
                        assert(crate::map::map_base_sum(pre_map) == 0);
                        assert(status.spec_base_used_size() == 0);
                        assert(status.spec_num_objects() == 0);
                        assert(status.spec_used_size_under(policy) == 0 + 0
                            * crate::overhead::spec_policy_overhead(policy));
                    }
                }
            }
            let erase_key = match maybe_key {
                Some(key) => Some(EraseKey::Hashed(key)),
                None => None,
            };
            let erased = erase(objects, status, erase_key, now);
            match erased {
                Ok((key, _)) => {
                    evictions.push(key);
                    if use_mini {
                        // remembered for the incoming reconstructed stack
                        // and for the trace once the switch completes
                        self.buffered_events.push(StackEvent::Del(key));
                    } else {
                        self.trace_log.handle_event(&StackEvent::Del(key), now);
                    }
                },
                Err(_) => (),
            }
            proof {
                let post_map = object_map_view(*objects);
                if post_map.len() == pre_len {
                    assert(maybe_key is Some);
                }
            }
        }
        // the interim shadow stack served these evictions itself; the
        // other shadow stacks still have to forget the keys
        if use_mini {
            let index = match self.mini_index {
                Some(index) => index,
                None => 0,
            };
            self.mini_manager.apply_evictions(index, &evictions);
        }
    }

    /// Whether the polling interval has passed since the last selector
    /// poll at `last`, judged at `now`; an unpolled selector polls at
    /// once.
    pub open spec fn spec_auto_window_passed(last: Option<u64>, now: u64) -> bool {
        match last {
            None => true,
            Some(instant) => instant <= now && now - instant > AUTO_POLICY_DURATION_MS,
        }
    }

    /// Picks a better policy by observed miss ratio: exactly where the
    /// selector is on, no set happened in this drain, no switch is in
    /// flight, the polling interval has passed, and some shadow stack
    /// strictly beats the current policy's own.
    pub fn perform_auto_policy(
        &mut self,
        is_auto: bool,
        has_current_set: bool,
        now: u64,
    ) -> (r: Option<PaperPolicy>)
        requires
            old(self).wf(),
        ensures
            final(self).wf(),
            *final(self) == (PolicyWorker {
                last_auto_policy_time: final(self).last_auto_policy_time,
                ..*old(self)
            }),
            match r {
                Some(p) => {
                    &&& !has_current_set
                    &&& is_auto
                    &&& old(self).mini_index is None
                    &&& PolicyWorker::spec_auto_window_passed(old(self).last_auto_policy_time, now)
                    &&& final(self).last_auto_policy_time == Some(now)
                    &&& !(p is Auto)
                    &&& p.params_valid()
                    &&& exists|b: int, c: int|
                        {
                            &&& 0 <= b < old(self).mini_manager.mini_stacks@.len()
                            &&& 0 <= c < old(self).mini_manager.mini_stacks@.len()
                            &&& p == (#[trigger] old(self).mini_manager.mini_stacks@[b]).policy
                            &&& (#[trigger] old(self).mini_manager.mini_stacks@[c]).wf()
                            &&& old(self).mini_manager.mini_stacks@[c].stack.spec_policy_of()
                                == old(self).current_policy
                            &&& crate::mini_stack::miss_ratio_lt(
                                old(self).mini_manager.mini_stacks@[b].hits,
                                old(self).mini_manager.mini_stacks@[b].count,
                                old(self).mini_manager.mini_stacks@[c].hits,
                                old(self).mini_manager.mini_stacks@[c].count,
                            )
                            &&& forall|j: int|
                                0 <= j < old(self).mini_manager.mini_stacks@.len()
                                    ==> !crate::mini_stack::mini_lex_better(
                                    #[trigger] old(self).mini_manager.mini_stacks@[j],
                                    old(self).mini_manager.mini_stacks@[b],
                                )
                        }
                },
                None => {
                    ||| has_current_set
                    ||| !is_auto
                    ||| old(self).mini_index is Some
                    ||| !PolicyWorker::spec_auto_window_passed(
                        old(self).last_auto_policy_time,
                        now,
                    )
                    ||| MiniStackManager::spec_no_mini_of(
                        old(self).mini_manager.mini_stacks@,
                        old(self).current_policy,
                    )
                    ||| MiniStackManager::spec_no_better_mini(
                        old(self).mini_manager.mini_stacks@,
                        old(self).current_policy,
                    )
                },
            },
    {
        if has_current_set || !is_auto || self.mini_index.is_some() {
            return None;
        }
        let should_poll = match self.last_auto_policy_time {
            None => true,
            Some(last) => now.saturating_sub(last) > AUTO_POLICY_DURATION_MS,
        };
        if !should_poll {
            return None;
        }
        self.last_auto_policy_time = Some(now);
        let picked = self.mini_manager.get_optimal_policy(&self.current_policy);
        match picked {
            Some(policy) => {
                proof {
                    let minis = self.mini_manager.mini_stacks@;
                    let (b, c) = choose|b: int, c: int|
                        {
                            &&& 0 <= b < minis.len()
                            &&& 0 <= c < minis.len()
                            &&& policy == (#[trigger] minis[b]).policy
                            &&& (#[trigger] minis[c]).wf()
                            &&& minis[c].stack.spec_policy_of() == self.current_policy
                            &&& crate::mini_stack::miss_ratio_lt(
                                minis[b].hits,
                                minis[b].count,
                                minis[c].hits,
                                minis[c].count,
                            )
                            &&& forall|j: int|
                                0 <= j < minis.len() ==> !crate::mini_stack::mini_lex_better(
                                    #[trigger] minis[j],
                                    minis[b],
                                )
                        };
                    assert(minis[b].wf());
                    assert(!(policy is Auto));
                }
                Some(policy)
            },
            None => None,
        }
    }

    /// Whether a set happened within the recency window before `now`.
    pub open spec fn spec_recent_set(self, now: u64) -> bool {
        match self.last_set_time {
            Some(last) => now <= last || now - last <= SET_RECENCY_DURATION_MS,
            None => false,
        }
    }

    /// The polling delay before the next drain: fast exactly while sets
    /// are recent, slow otherwise.
    pub fn next_poll_delay_ms(&self, now: u64) -> (r: u64)
        ensures
            r == if self.spec_recent_set(now) {
                SHORT_POLLING_MS
            } else {
                LONG_POLLING_MS
            },
    {
        let has_recent_set = match self.last_set_time {
            Some(last) => now.saturating_sub(last) <= SET_RECENCY_DURATION_MS,
            None => false,
        };
        if has_recent_set {
            SHORT_POLLING_MS
        } else {
            LONG_POLLING_MS
        }
    }
}

/// How one stack event steps an eviction stack: the event's own
/// transition, with a wipe leaving the stack empty under its policy.
pub open spec fn stack_step_rel(pre: PolicyStack, post: PolicyStack, event: StackEvent) -> bool {
    match event {
        StackEvent::Get(key) => PolicyStack::update_rel(pre, post, key),
        StackEvent::Put(key, size) => PolicyStack::insert_rel(pre, post, key, size),
        StackEvent::Del(key) => PolicyStack::remove_rel(pre, post, key),
        StackEvent::Wipe => post.spec_is_empty() && post.spec_policy_of() == pre.spec_policy_of(),
        StackEvent::Resize(size) => PolicyStack::resize_rel(pre, post, size),
    }
}

/// Whether `post` is reachable from `pre` by replaying the stack events
/// in order.
pub open spec fn stack_replay_rel(events: Seq<StackEvent>, pre: PolicyStack, post: PolicyStack) -> bool
    decreases events.len(),
{
    if events.len() == 0 {
        post == pre
    } else {
        exists|mid: PolicyStack|
            #[trigger] stack_step_rel(pre, mid, events[0]) && stack_replay_rel(
                events.drop_first(),
                mid,
                post,
            )
    }
}

/// Extending a stack replay by one step extends the replayed sequence.
pub proof fn lemma_stack_replay_snoc(
    events: Seq<StackEvent>,
    pre: PolicyStack,
    mid: PolicyStack,
    post: PolicyStack,
    event: StackEvent,
)
    requires
        stack_replay_rel(events, pre, mid),
        stack_step_rel(mid, post, event),
    ensures
        stack_replay_rel(events.push(event), pre, post),
    decreases events.len(),
{
    if events.len() == 0 {
        assert(events.push(event)[0] == event);
        assert(events.push(event).drop_first() =~= Seq::<StackEvent>::empty());
        assert(stack_step_rel(pre, post, events.push(event)[0]));
        assert(stack_replay_rel(events.push(event).drop_first(), post, post));
    } else {
        let step_mid = choose|m: PolicyStack|
            #[trigger] stack_step_rel(pre, m, events[0]) && stack_replay_rel(
                events.drop_first(),
                m,
                mid,
            );
        lemma_stack_replay_snoc(events.drop_first(), step_mid, mid, post, event);
        assert(events.push(event).drop_first() =~= events.drop_first().push(event));
        assert(events.push(event)[0] == events[0]);
        assert(stack_step_rel(pre, step_mid, events.push(event)[0]));
        assert(stack_replay_rel(events.push(event).drop_first(), step_mid, post));
    }
}

/// Whether `post` is reachable from `pre` by handing the stack events to
/// the trace log in order at `now`.
pub open spec fn log_flush_rel(
    events: Seq<StackEvent>,
    pre: Seq<crate::trace::TraceFragment>,
    post: Seq<crate::trace::TraceFragment>,
    now: u64,
) -> bool
    decreases events.len(),
{
    if events.len() == 0 {
        post == pre
    } else {
        exists|mid: Seq<crate::trace::TraceFragment>|
            #[trigger] crate::trace::log_handle_rel(pre, mid, events[0], now) && log_flush_rel(
                events.drop_first(),
                mid,
                post,
                now,
            )
    }
}

/// Extending a log flush by one handled event extends the flushed
/// sequence.
pub proof fn lemma_log_flush_snoc(
    events: Seq<StackEvent>,
    pre: Seq<crate::trace::TraceFragment>,
    mid: Seq<crate::trace::TraceFragment>,
    post: Seq<crate::trace::TraceFragment>,
    event: StackEvent,
    now: u64,
)
    requires
        log_flush_rel(events, pre, mid, now),
        crate::trace::log_handle_rel(mid, post, event, now),
    ensures
        log_flush_rel(events.push(event), pre, post, now),
    decreases events.len(),
{
    if events.len() == 0 {
        assert(events.push(event)[0] == event);
        assert(events.push(event).drop_first() =~= Seq::<StackEvent>::empty());
        assert(crate::trace::log_handle_rel(pre, post, events.push(event)[0], now));
        assert(log_flush_rel(events.push(event).drop_first(), post, post, now));
    } else {
        let step_mid = choose|m: Seq<crate::trace::TraceFragment>|
            #[trigger] crate::trace::log_handle_rel(pre, m, events[0], now) && log_flush_rel(
                events.drop_first(),
                m,
                mid,
                now,
            );
        lemma_log_flush_snoc(events.drop_first(), step_mid, mid, post, event, now);
        assert(events.push(event).drop_first() =~= events.drop_first().push(event));
        assert(events.push(event)[0] == events[0]);
        assert(crate::trace::log_handle_rel(pre, step_mid, events.push(event)[0], now));
        assert(log_flush_rel(events.push(event).drop_first(), step_mid, post, now));
    }
}

/// The TTL worker's state: the time-ordered expiry index.
pub struct TtlWorker {
    pub expiries: Expiries,
}

impl TtlWorker {
    pub open spec fn wf(self) -> bool {
        self.expiries.wf()
    }

    /// Builds an empty index.
    pub fn new() -> (r: TtlWorker)
        ensures
            r.wf(),
    {
        TtlWorker { expiries: Expiries::new() }
    }

    /// How one worker event reindexes the expiry schedule: a set forgets
    /// the replaced object's instant and schedules the new expiry, a
    /// delete forgets the removed object's instant, a TTL rewrite moves
    /// the key's instant, a wipe clears everything, and the rest change
    /// nothing.
    pub open spec fn spec_handle_event(v: Seq<crate::expiries::Expiry>, event: WorkerEvent) -> Seq<
        crate::expiries::Expiry,
    > {
        match event {
            WorkerEvent::Put(key, _, expiry, old_info) => {
                let cleared = match old_info {
                    Some((_, old_expiry)) => crate::expiries::spec_expiries_remove(
                        v,
                        key,
                        old_expiry,
                    ),
                    None => v,
                };
                crate::expiries::spec_expiries_insert(cleared, key, expiry)
            },
            WorkerEvent::Del(key, expiry) => crate::expiries::spec_expiries_remove(v, key, expiry),
            WorkerEvent::Ttl(key, old_expiry, new_expiry) => crate::expiries::spec_expiries_insert(
                crate::expiries::spec_expiries_remove(v, key, old_expiry),
                key,
                new_expiry,
            ),
            WorkerEvent::Wipe => Seq::empty(),
            _ => v,
        }
    }

    /// Reindexes the expiry schedule by one event.
    pub fn handle_event(&mut self, event: &WorkerEvent)
        requires
            old(self).wf(),
        ensures
            final(self).wf(),
            final(self).expiries.view() == TtlWorker::spec_handle_event(
                old(self).expiries.view(),
                *event,
            ),
    {
        match event {
            WorkerEvent::Put(key, _, expiry, old_info) => {
                if let Some((_, old_expiry)) = old_info {
                    self.expiries.remove(*key, *old_expiry);
                }
                self.expiries.insert(*key, *expiry);
            },
            WorkerEvent::Del(key, expiry) => {
                self.expiries.remove(*key, *expiry);
            },
            WorkerEvent::Ttl(key, old_expiry, new_expiry) => {
                self.expiries.remove(*key, *old_expiry);
                self.expiries.insert(*key, *new_expiry);
            },
            WorkerEvent::Wipe => {
                self.expiries.clear();
            },
            _ => (),
        }
    }

    /// The schedule with every entry due at `now` taken off the front.
    pub open spec fn spec_drop_due(v: Seq<crate::expiries::Expiry>, now: u64) -> Seq<
        crate::expiries::Expiry,
    >
        decreases v.len(),
    {
        if v.len() > 0 && v[0].timestamp <= now {
            TtlWorker::spec_drop_due(v.drop_first(), now)
        } else {
            v
        }
    }

    /// The object map with every key scheduled due at `now` removed, in
    /// schedule order.
    pub open spec fn spec_erase_due(
        m: Map<u64, Object>,
        v: Seq<crate::expiries::Expiry>,
        now: u64,
    ) -> Map<u64, Object>
        decreases v.len(),
    {
        if v.len() > 0 && v[0].timestamp <= now {
            TtlWorker::spec_erase_due(m.remove(v[0].key), v.drop_first(), now)
        } else {
            m
        }
    }

    /// Removes every object whose scheduled expiry has passed: the due
    /// prefix of the schedule is consumed and each of its keys leaves the
    /// object map.
    pub fn expire_pass(
        &mut self,
        objects: &mut DashMap<u64, Object, RandomState>,
        status: &mut CacheStatus,
        now: u64,
    )
        requires
            old(self).wf(),
            accounting_ok(object_map_view(*old(objects)), *old(status)),
        ensures
            final(self).wf(),
            accounting_ok(object_map_view(*final(objects)), *final(status)),
            final(self).expiries.view() == TtlWorker::spec_drop_due(
                old(self).expiries.view(),
                now,
            ),
            object_map_view(*final(objects)) == TtlWorker::spec_erase_due(
                object_map_view(*old(objects)),
                old(self).expiries.view(),
                now,
            ),
            final(status).spec_max_size() == old(status).spec_max_size(),
            final(status).spec_policies() == old(status).spec_policies(),
            final(status).spec_policy_index() == old(status).spec_policy_index(),
            final(status).spec_is_auto_policy() == old(status).spec_is_auto_policy(),
            final(status).spec_total_gets() == old(status).spec_total_gets(),
            final(status).spec_total_hits() == old(status).spec_total_hits(),
            final(status).spec_total_sets() == old(status).spec_total_sets(),
            final(status).spec_total_dels() == old(status).spec_total_dels(),
    {
        loop
            invariant
                self.wf(),
                accounting_ok(object_map_view(*objects), *status),
                TtlWorker::spec_drop_due(self.expiries.view(), now) == TtlWorker::spec_drop_due(
                    old(self).expiries.view(),
                    now,
                ),
                TtlWorker::spec_erase_due(object_map_view(*objects), self.expiries.view(), now)
                    == TtlWorker::spec_erase_due(
                    object_map_view(*old(objects)),
                    old(self).expiries.view(),
                    now,
                ),
                status.spec_max_size() == old(status).spec_max_size(),
                status.spec_policies() == old(status).spec_policies(),
                status.spec_policy_index() == old(status).spec_policy_index(),
                status.spec_is_auto_policy() == old(status).spec_is_auto_policy(),
                status.spec_total_gets() == old(status).spec_total_gets(),
                status.spec_total_hits() == old(status).spec_total_hits(),
                status.spec_total_sets() == old(status).spec_total_sets(),
                status.spec_total_dels() == old(status).spec_total_dels(),
            decreases self.expiries.view().len(),
        {
            let ghost pre_view = self.expiries.view();
            let ghost pre_map = object_map_view(*objects);
            match self.expiries.pop_expired(now) {
                Some(key) => {
                    let erased = erase(objects, status, Some(EraseKey::Hashed(key)), now);
                    proof {
                        if !pre_map.contains_key(key) {
                            assert(object_map_view(*objects) =~= pre_map.remove(key));
                        }
                        match erased {
                            Ok(_) => (),
                            Err(_) => (),
                        }
                        assert(object_map_view(*objects) == pre_map.remove(key));
                    }
                },
                None => {
                    return;
                },
            }
        }
    }

    /// The polling delay before the next pass: fast exactly while an
    /// expiry is due within two seconds, slow otherwise.
    pub fn next_poll_delay_ms(&self, now: u64) -> (r: u64)
        ensures
            r == if self.expiries.view().len() > 0 && self.expiries.view()[0].timestamp
                <= crate::object::spec_saturating_instant(now, 2) {
                SHORT_POLLING_MS
            } else {
                LONG_POLLING_MS
            },
    {
        if self.expiries.has_within(2, now) {
            SHORT_POLLING_MS
        } else {
            LONG_POLLING_MS
        }
    }
}

} // verus!
