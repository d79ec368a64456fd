//! The sampled mini-stacks: one shadow eviction stack per configured
//! policy, fed the same events as the cache in miniature, with hit and
//! count statistics that let the selector compare policies by observed
//! miss ratio.
use vstd::prelude::*;

use crate::CacheSize;
use crate::keylist::{key_index, seq_has_key};
use crate::object::ObjectSize;
use crate::overhead::{get_policy_overhead, spec_policy_overhead};
use crate::policy::PaperPolicy;
use crate::stack::{PolicyStack, init_policy_stack};
use crate::stack::sized_queue::SizedQueue;
use crate::status::{incr64, spec_incr64};

verus! {

/// The sampling modulus: keys are admitted by their hash residue below
/// the threshold, so about a thousandth of all keys participate.
pub const MINI_SAMPLING_MODULUS: u64 = 16_777_216;

/// The sampling threshold under `MINI_SAMPLING_MODULUS`.
pub const MINI_SAMPLING_THRESHOLD: u64 = 16_777;

/// Whether the deterministic sampling filter admits `key`.
pub open spec fn spec_should_sample(key: u64) -> bool {
    key % MINI_SAMPLING_MODULUS < MINI_SAMPLING_THRESHOLD
}

/// Returns `true` iff the deterministic sampling filter admits `key`.
pub fn should_sample(key: u64) -> (r: bool)
    ensures
        r == spec_should_sample(key),
{
    proof {
        assert(key & 16_777_215u64 == key % 16_777_216u64) by (bit_vector);
    }
    key & (MINI_SAMPLING_MODULUS - 1) < MINI_SAMPLING_THRESHOLD
}

/// The mini-stack size a cache of `size` bytes samples down to.
pub open spec fn spec_mini_stack_size(size: CacheSize) -> CacheSize {
    ((size * MINI_SAMPLING_THRESHOLD) / (MINI_SAMPLING_MODULUS as int)) as CacheSize
}

/// Computes the mini-stack size for a cache of `size` bytes.
pub fn get_mini_stack_size(size: CacheSize) -> (r: CacheSize)
    ensures
        r == spec_mini_stack_size(size),
{
    let wide = (size as u128) * (MINI_SAMPLING_THRESHOLD as u128) / (MINI_SAMPLING_MODULUS as u128);
    proof {
        assert(wide <= u64::MAX) by (nonlinear_arith)
            requires
                wide == (size as int) * 16_777 / 16_777_216,
                size <= u64::MAX,
        ;
    }
    wide as u64
}

/// One sampled shadow stack: a policy stack in miniature with a size
/// ledger and hit statistics over the sampled stream.
pub struct MiniStack {
    pub stack: PolicyStack,
    pub sizes: SizedQueue,
    pub policy: PaperPolicy,
    pub max_size: CacheSize,
    pub count: u64,
    pub hits: u64,
}

/// The miniature budget left for an object of `size` bytes.
pub open spec fn spec_reduce_target(max_size: CacheSize, size: ObjectSize) -> u64 {
    if size as u64 <= max_size {
        (max_size - size as u64) as u64
    } else {
        0
    }
}

/// How a bounded reduction steps a shadow stack toward `target` ledger
/// bytes: while the ledger exceeds the target and rounds remain, the
/// stack surrenders one key, which leaves the ledger; a stack with
/// nothing to offer ends the reduction.
pub open spec fn mini_reduce_rel(pre: MiniStack, post: MiniStack, target: u64, fuel: nat) -> bool
    decreases fuel,
{
    if fuel == 0 {
        post == pre
    } else if pre.sizes.spec_used() <= target {
        post == pre
    } else {
        exists|r: Option<u64>, mid: MiniStack|
            {
                &&& #[trigger] PolicyStack::evict_rel(pre.stack, mid.stack, r)
                &&& mid.policy == pre.policy
                &&& mid.max_size == pre.max_size
                &&& mid.count == pre.count
                &&& mid.hits == pre.hits
                &&& match r {
                    None => mid.sizes == pre.sizes && post == mid,
                    Some(key) => mid.sizes.view() == crate::stack::lru_stack::stack_remove(
                        pre.sizes.view(),
                        key,
                    ) && mid.sizes.wf() && mini_reduce_rel(mid, post, target, (fuel - 1) as nat),
                }
            }
    }
}

/// How a sampled access steps a shadow stack: the count rises, a held
/// key counts a hit, and the stack takes the access.
pub open spec fn mini_update_count_rel(pre: MiniStack, post: MiniStack, key: u64) -> bool {
    &&& post.count == spec_incr64(pre.count)
    &&& (pre.stack.spec_contains(key) ==> post.hits == spec_incr64(pre.hits))
    &&& (!pre.stack.spec_contains(key) ==> post.hits == pre.hits)
    &&& PolicyStack::update_rel(pre.stack, post.stack, key)
    &&& post.sizes == pre.sizes
    &&& post.policy == pre.policy
    &&& post.max_size == pre.max_size
}

/// How a sampled admission steps a shadow stack: a reduction makes room
/// within the miniature budget, the ledger takes the key's size in place
/// of any old one, and the stack admits the key.
pub open spec fn mini_insert_rel(pre: MiniStack, post: MiniStack, key: u64, size: ObjectSize) -> bool {
    exists|mid: MiniStack|
        {
            &&& #[trigger] mini_reduce_rel(
                pre,
                mid,
                spec_reduce_target(pre.max_size, size),
                pre.sizes.view().len() as nat,
            )
            &&& PolicyStack::insert_rel(mid.stack, post.stack, key, size)
            &&& post.sizes.view() == seq![
                (crate::keylist::Entry { key, size, visited: false, freq: 0 }),
            ] + crate::stack::lru_stack::stack_remove(mid.sizes.view(), key)
            &&& post.count == pre.count
            &&& post.hits == pre.hits
            &&& post.policy == pre.policy
            &&& post.max_size == pre.max_size
        }
}

/// How a sampled removal steps a shadow stack: the stack and the ledger
/// both forget the key.
pub open spec fn mini_remove_rel(pre: MiniStack, post: MiniStack, key: u64) -> bool {
    &&& PolicyStack::remove_rel(pre.stack, post.stack, key)
    &&& post.sizes.view() == crate::stack::lru_stack::stack_remove(pre.sizes.view(), key)
    &&& post.count == pre.count
    &&& post.hits == pre.hits
    &&& post.policy == pre.policy
    &&& post.max_size == pre.max_size
}

/// How a resize steps a shadow stack: the stack resizes, the miniature
/// budget is remembered, and a reduction sheds what no longer fits.
pub open spec fn mini_resize_rel(pre: MiniStack, post: MiniStack, size: CacheSize) -> bool {
    exists|mid: MiniStack|
        {
            &&& #[trigger] PolicyStack::resize_rel(pre.stack, mid.stack, size)
            &&& mid.sizes == pre.sizes
            &&& mid.count == pre.count
            &&& mid.hits == pre.hits
            &&& mid.policy == pre.policy
            &&& mid.max_size == size
            &&& mini_reduce_rel(mid, post, size, mid.sizes.view().len() as nat)
        }
}

/// How a wipe steps a shadow stack: everything is forgotten and the
/// statistics start over.
pub open spec fn mini_clear_rel(pre: MiniStack, post: MiniStack) -> bool {
    &&& post.stack.spec_is_empty()
    &&& post.stack.spec_policy_of() == pre.stack.spec_policy_of()
    &&& post.sizes.view().len() == 0
    &&& post.count == 0
    &&& post.hits == 0
    &&& post.policy == pre.policy
    &&& post.max_size == pre.max_size
}

impl MiniStack {
    pub open spec fn wf(self) -> bool {
        &&& self.stack.wf()
        &&& self.sizes.wf()
        &&& self.hits <= self.count
        &&& self.policy.params_valid()
        &&& !(self.policy is Auto)
    }

    /// Builds the empty shadow stack of `policy`, `size` bytes large.
    pub fn new(policy: PaperPolicy, size: CacheSize) -> (r: MiniStack)
        requires
            policy.params_valid(),
            !(policy is Auto),
        ensures
            r.wf(),
            r.policy == policy,
            r.max_size == size,
            r.count == 0,
            r.hits == 0,
    {
        MiniStack {
            stack: init_policy_stack(&policy, size),
            sizes: SizedQueue::new(),
            policy,
            max_size: size,
            count: 0,
            hits: 0,
        }
    }

    /// The policy this shadow stack orders under.
    pub fn policy(&self) -> (r: PaperPolicy)
        ensures
            r == self.policy,
    {
        self.policy
    }

    /// Returns `true` iff this shadow stack orders under `policy`.
    pub fn is_policy(&self, policy: &PaperPolicy) -> (r: bool)
        ensures
            r == (*policy == self.stack.spec_policy_of()),
    {
        self.stack.is_policy(policy)
    }

    /// Returns `true` iff the shadow stack holds `key`.
    pub fn contains(&self, key: u64) -> (r: bool)
        requires
            self.wf(),
        ensures
            r == self.stack.spec_contains(key),
    {
        self.stack.contains(key)
    }

    /// Records a sampled access of `key` in the statistics — a hit where
    /// the stack holds it — and as an access of the shadow stack.
    pub fn update_with_count(&mut self, key: u64)
        requires
            old(self).wf(),
        ensures
            final(self).wf(),
            mini_update_count_rel(*old(self), *final(self), key),
    {
        self.count = incr64(self.count);
        if self.stack.contains(key) {
            self.hits = if self.hits < self.count {
                incr64(self.hits)
            } else {
                self.hits
            };
        }
        self.stack.update(key);
    }

    /// Records a sampled access of `key` without counting it.
    pub fn update(&mut self, key: u64)
        requires
            old(self).wf(),
        ensures
            final(self).wf(),
            PolicyStack::update_rel(old(self).stack, final(self).stack, key),
            final(self).count == old(self).count,
            final(self).hits == old(self).hits,
            final(self).policy == old(self).policy,
            final(self).max_size == old(self).max_size,
    {
        self.stack.update(key);
    }

    /// Admits `key` of `size` bytes after making room for it in the
    /// miniature budget.
    pub fn insert(&mut self, key: u64, size: ObjectSize)
        requires
            old(self).wf(),
        ensures
            final(self).wf(),
            mini_insert_rel(*old(self), *final(self), key, size),
    {
        let target = self.max_size.saturating_sub(size as u64);
        self.reduce(target);
        let ghost mid = *self;
        let ghost pre = self.sizes.view();
        match self.sizes.remove_key(key) {
            Some(_) => (),
            None => (),
        }
        proof {
            if seq_has_key(pre, key) {
                crate::keylist::lemma_has_key_remove(pre, key_index(pre, key), key);
            }
        }
        self.sizes.push_entry(crate::keylist::Entry::sized(key, size));
        self.stack.insert(key, size);
        proof {
            assert(self.sizes.view() =~= seq![
                (crate::keylist::Entry { key, size, visited: false, freq: 0 }),
            ] + crate::stack::lru_stack::stack_remove(mid.sizes.view(), key));
            assert(spec_reduce_target(old(self).max_size, size) == target);
            assert(mini_reduce_rel(
                *old(self),
                mid,
                spec_reduce_target(old(self).max_size, size),
                old(self).sizes.view().len() as nat,
            ));
            assert(mini_insert_rel(*old(self), *self, key, size));
        }
    }

    /// Forgets `key`.
    pub fn remove(&mut self, key: u64)
        requires
            old(self).wf(),
        ensures
            final(self).wf(),
            mini_remove_rel(*old(self), *final(self), key),
    {
        self.stack.remove(key);
        let _ = self.sizes.remove_key(key);
    }

    /// Resizes the miniature budget and sheds what no longer fits.
    pub fn resize(&mut self, size: CacheSize)
        requires
            old(self).wf(),
        ensures
            final(self).wf(),
            mini_resize_rel(*old(self), *final(self), size),
    {
        self.stack.resize(size);
        self.max_size = size;
        let ghost mid = *self;
        self.reduce(size);
        proof {
            assert(mini_resize_rel(*old(self), *self, size));
        }
    }

    /// Forgets every key and zeroes the statistics.
    pub fn clear(&mut self)
        requires
            old(self).wf(),
        ensures
            final(self).wf(),
            mini_clear_rel(*old(self), *final(self)),
    {
        self.stack.clear();
        self.sizes.clear();
        self.count = 0;
        self.hits = 0;
    }

    /// Takes the key the shadow policy orders out next.
    pub fn evict_one(&mut self) -> (r: Option<u64>)
        requires
            old(self).wf(),
        ensures
            final(self).wf(),
            PolicyStack::evict_rel(old(self).stack, final(self).stack, r),
            r matches Some(key) ==> final(self).sizes.view()
                == crate::stack::lru_stack::stack_remove(old(self).sizes.view(), key),
            r is None ==> final(self).sizes == old(self).sizes,
            final(self).policy == old(self).policy,
            final(self).max_size == old(self).max_size,
            final(self).count == old(self).count,
            final(self).hits == old(self).hits,
    {
        let r = self.stack.evict_one();
        match r {
            Some(key) => {
                let _ = self.sizes.remove_key(key);
            },
            None => (),
        }
        r
    }

    /// Sheds keys by the shadow policy's order until the ledger holds at
    /// most `target` bytes, until the stack has no key left to offer, or
    /// until one round per ledger entry has passed.
    fn reduce(&mut self, target: CacheSize)
        requires
            old(self).wf(),
        ensures
            final(self).wf(),
            mini_reduce_rel(*old(self), *final(self), target, old(self).sizes.view().len() as nat),
            final(self).count == old(self).count,
            final(self).hits == old(self).hits,
            final(self).policy == old(self).policy,
            final(self).max_size == old(self).max_size,
    {
        let entry_rounds = self.sizes.len();
        let mut rounds = entry_rounds;
        while rounds > 0
            invariant
                self.wf(),
                rounds <= entry_rounds,
                entry_rounds == old(self).sizes.view().len(),
                self.count == old(self).count,
                self.hits == old(self).hits,
                self.policy == old(self).policy,
                self.max_size == old(self).max_size,
                forall|post: MiniStack|
                    #[trigger] mini_reduce_rel(*self, post, target, rounds as nat)
                        ==> mini_reduce_rel(*old(self), post, target, entry_rounds as nat),
            decreases rounds,
        {
            let ghost pre = *self;
            if self.sizes.used() <= target as u128 {
                proof {
                    assert(mini_reduce_rel(*self, *self, target, rounds as nat));
                }
                return;
            }
            match self.stack.evict_one() {
                Some(key) => {
                    let ghost pre_sizes = self.sizes.view();
                    let _ = self.sizes.remove_key(key);
                    let ghost old_rounds = rounds;
                    rounds = rounds - 1;
                    proof {
                        if seq_has_key(pre_sizes, key) {
                            crate::keylist::lemma_has_key_remove(
                                pre_sizes,
                                key_index(pre_sizes, key),
                                key,
                            );
                        }
                        assert(self.sizes.view() == crate::stack::lru_stack::stack_remove(
                            pre.sizes.view(),
                            key,
                        ));
                        assert forall|post: MiniStack|
                            #[trigger] mini_reduce_rel(
                                *self,
                                post,
                                target,
                                rounds as nat,
                            ) implies mini_reduce_rel(
                            *old(self),
                            post,
                            target,
                            entry_rounds as nat,
                        ) by {
                            assert(PolicyStack::evict_rel(pre.stack, self.stack, Some(key)));
                            assert(mini_reduce_rel(pre, post, target, old_rounds as nat));
                        }
                    }
                },
                None => {
                    proof {
                        assert(PolicyStack::evict_rel(pre.stack, self.stack, Option::<u64>::None));
                        assert(mini_reduce_rel(pre, *self, target, rounds as nat));
                    }
                    return;
                },
            }
        }
        proof {
            assert(mini_reduce_rel(*self, *self, target, 0));
        }
    }
}

/// Whether the sampled miss ratio of `(h1, c1)` is strictly below that of
/// `(h2, c2)`, comparing `1 - h/c` as exact rationals with an unsampled
/// stack standing at ratio one.
pub open spec fn miss_ratio_lt(h1: u64, c1: u64, h2: u64, c2: u64) -> bool {
    if c1 == 0 {
        false
    } else if c2 == 0 {
        h1 > 0
    } else {
        h1 * c2 > h2 * c1
    }
}

/// Whether the sampled miss ratios of `(h1, c1)` and `(h2, c2)` are
/// equal as exact rationals.
pub open spec fn miss_ratio_eq(h1: u64, c1: u64, h2: u64, c2: u64) -> bool {
    if c1 == 0 && c2 == 0 {
        true
    } else if c1 == 0 {
        h2 == 0
    } else if c2 == 0 {
        h1 == 0
    } else {
        h1 * c2 == h2 * c1
    }
}

/// Compares two sampled miss ratios exactly; negative for strictly
/// lower, zero for equal, positive for strictly higher.
pub fn cmp_miss_ratio(h1: u64, c1: u64, h2: u64, c2: u64) -> (r: i8)
    ensures
        (r == -1) == miss_ratio_lt(h1, c1, h2, c2),
        (r == 0) == miss_ratio_eq(h1, c1, h2, c2),
        (r == 1) == miss_ratio_lt(h2, c2, h1, c1),
{
    if c1 == 0 && c2 == 0 {
        0
    } else if c1 == 0 {
        if h2 > 0 {
            1
        } else {
            0
        }
    } else if c2 == 0 {
        if h1 > 0 {
            -1
        } else {
            0
        }
    } else {
        proof {
            assert((h1 as int) * (c2 as int) <= (u64::MAX as int) * (u64::MAX as int)
                && (h2 as int) * (c1 as int) <= (u64::MAX as int) * (u64::MAX as int))
                by (nonlinear_arith)
                requires
                    h1 <= u64::MAX,
                    c2 <= u64::MAX,
                    h2 <= u64::MAX,
                    c1 <= u64::MAX,
            ;
        }
        let lhs = (h1 as u128) * (c2 as u128);
        let rhs = (h2 as u128) * (c1 as u128);
        if lhs > rhs {
            -1
        } else if lhs == rhs {
            0
        } else {
            1
        }
    }
}

/// Whether mini-stack `a` orders strictly better than `b`: a lower miss
/// ratio, or the same ratio with a smaller per-object overhead.
pub open spec fn mini_lex_better(a: MiniStack, b: MiniStack) -> bool {
    ||| miss_ratio_lt(a.hits, a.count, b.hits, b.count)
    ||| (miss_ratio_eq(a.hits, a.count, b.hits, b.count) && spec_policy_overhead(a.policy)
        < spec_policy_overhead(b.policy))
}

/// Whether `post` is reachable from `pre` by forgetting the keys in
/// order.
pub open spec fn mini_removes_rel(keys: Seq<u64>, pre: MiniStack, post: MiniStack) -> bool
    decreases keys.len(),
{
    if keys.len() == 0 {
        post == pre
    } else {
        exists|mid: MiniStack|
            #[trigger] mini_remove_rel(pre, mid, keys[0]) && mini_removes_rel(
                keys.drop_first(),
                mid,
                post,
            )
    }
}

/// Extending a removal run by one key extends the removed sequence.
pub proof fn lemma_mini_removes_snoc(
    keys: Seq<u64>,
    pre: MiniStack,
    mid: MiniStack,
    post: MiniStack,
    key: u64,
)
    requires
        mini_removes_rel(keys, pre, mid),
        mini_remove_rel(mid, post, key),
    ensures
        mini_removes_rel(keys.push(key), pre, post),
    decreases keys.len(),
{
    if keys.len() == 0 {
        assert(keys.push(key)[0] == key);
        assert(keys.push(key).drop_first() =~= Seq::<u64>::empty());
        assert(mini_remove_rel(pre, post, keys.push(key)[0]));
        assert(mini_removes_rel(keys.push(key).drop_first(), post, post));
    } else {
        let step_mid = choose|m: MiniStack|
            #[trigger] mini_remove_rel(pre, m, keys[0]) && mini_removes_rel(
                keys.drop_first(),
                m,
                mid,
            );
        lemma_mini_removes_snoc(keys.drop_first(), step_mid, mid, post, key);
        assert(keys.push(key).drop_first() =~= keys.drop_first().push(key));
        assert(keys.push(key)[0] == keys[0]);
        assert(mini_remove_rel(pre, step_mid, keys.push(key)[0]));
        assert(mini_removes_rel(keys.push(key).drop_first(), step_mid, post));
    }
}

/// The sampled shadow stacks, one per configured policy.
pub struct MiniStackManager {
    pub mini_stacks: Vec<MiniStack>,
    pub total_gets: u64,
}

impl MiniStackManager {
    pub open spec fn wf(self) -> bool {
        forall|i: int| 0 <= i < self.mini_stacks@.len() ==> (#[trigger] self.mini_stacks@[i]).wf()
    }

    /// Builds one empty shadow stack per configured policy, each sampled
    /// down from `cache_size`.
    pub fn new(policies: &Vec<PaperPolicy>, cache_size: CacheSize) -> (r: MiniStackManager)
        requires
            forall|i: int|
                0 <= i < policies@.len() ==> (#[trigger] policies@[i]).params_valid() && !(
                policies@[i] is Auto),
        ensures
            r.wf(),
            r.mini_stacks@.len() == policies@.len(),
            forall|i: int|
                0 <= i < policies@.len() ==> (#[trigger] r.mini_stacks@[i]).policy == policies@[i],
            r.total_gets == 0,
    {
        let mini_size = get_mini_stack_size(cache_size);
        let mut mini_stacks: Vec<MiniStack> = Vec::new();
        let n = policies.len();
        let mut i: usize = 0;
        while i < n
            invariant
                0 <= i <= n,
                n == policies@.len(),
                mini_stacks@.len() == i,
                forall|k: int|
                    0 <= k < policies@.len() ==> (#[trigger] policies@[k]).params_valid() && !(
                    policies@[k] is Auto),
                forall|k: int| 0 <= k < i ==> (#[trigger] mini_stacks@[k]).wf(),
                forall|k: int| 0 <= k < i ==> (#[trigger] mini_stacks@[k]).policy == policies@[k],
            decreases n - i,
        {
            mini_stacks.push(MiniStack::new(policies[i], mini_size));
            i = i + 1;
        }
        MiniStackManager { mini_stacks, total_gets: 0 }
    }

    /// The position of the first shadow stack ordering under `policy`,
    /// or position zero where none does.
    pub fn get_index(&self, policy: &PaperPolicy) -> (r: usize)
        ensures
            r <= self.mini_stacks@.len(),
            self.mini_stacks@.len() > 0 ==> r < self.mini_stacks@.len(),
            (exists|j: int|
                0 <= j < self.mini_stacks@.len() && (#[trigger] self.mini_stacks@[j]).stack.spec_policy_of()
                    == *policy) ==> r < self.mini_stacks@.len() && self.mini_stacks@[r as int].stack.spec_policy_of()
                == *policy && forall|k: int|
                0 <= k < r ==> (#[trigger] self.mini_stacks@[k]).stack.spec_policy_of() != *policy,
            !(exists|j: int|
                0 <= j < self.mini_stacks@.len() && (#[trigger] self.mini_stacks@[j]).stack.spec_policy_of()
                    == *policy) ==> r == 0,
    {
        let n = self.mini_stacks.len();
        let mut i: usize = 0;
        while i < n
            invariant
                0 <= i <= n,
                n == self.mini_stacks@.len(),
                forall|k: int|
                    0 <= k < i ==> (#[trigger] self.mini_stacks@[k]).stack.spec_policy_of()
                        != *policy,
            decreases n - i,
        {
            if self.mini_stacks[i].is_policy(policy) {
                return i;
            }
            i = i + 1;
        }
        0
    }

    /// Takes the next eviction the shadow stack at `index` orders.
    pub fn get_eviction(&mut self, index: usize) -> (r: Option<u64>)
        requires
            old(self).wf(),
            index < old(self).mini_stacks@.len(),
        ensures
            final(self).wf(),
            final(self).mini_stacks@.len() == old(self).mini_stacks@.len(),
            final(self).total_gets == old(self).total_gets,
            PolicyStack::evict_rel(
                old(self).mini_stacks@[index as int].stack,
                final(self).mini_stacks@[index as int].stack,
                r,
            ),
    {
        let mut mini = self.mini_stacks.remove(index);
        let r = mini.evict_one();
        self.mini_stacks.insert(index, mini);
        proof {
            assert forall|i: int|
                0 <= i < self.mini_stacks@.len() implies (#[trigger] self.mini_stacks@[i]).wf() by {
                if i < index {
                    assert(self.mini_stacks@[i] == old(self).mini_stacks@[i]);
                } else if i > index {
                    assert(self.mini_stacks@[i] == old(self).mini_stacks@[i]);
                }
            }
            assert(self.mini_stacks@[index as int] == mini);
        }
        r
    }

    /// Counts a get and, where the filter admits the key, records the
    /// access in every shadow stack; an unadmitted key touches none.
    pub fn handle_get(&mut self, key: u64)
        requires
            old(self).wf(),
        ensures
            final(self).wf(),
            final(self).total_gets == spec_incr64(old(self).total_gets),
            final(self).mini_stacks@.len() == old(self).mini_stacks@.len(),
            !spec_should_sample(key) ==> final(self).mini_stacks@ == old(self).mini_stacks@,
            spec_should_sample(key) ==> forall|i: int|
                0 <= i < old(self).mini_stacks@.len() ==> mini_update_count_rel(
                    #[trigger] old(self).mini_stacks@[i],
                    final(self).mini_stacks@[i],
                    key,
                ),
    {
        self.total_gets = incr64(self.total_gets);
        if !should_sample(key) {
            return;
        }
        let n = self.mini_stacks.len();
        let mut i: usize = 0;
        while i < n
            invariant
                self.wf(),
                n == self.mini_stacks@.len(),
                0 <= i <= n,
                self.total_gets == spec_incr64(old(self).total_gets),
                forall|k: int| i <= k < n ==> self.mini_stacks@[k] == old(self).mini_stacks@[k],
                forall|k: int|
                    0 <= k < i ==> mini_update_count_rel(
                        #[trigger] old(self).mini_stacks@[k],
                        self.mini_stacks@[k],
                        key,
                    ),
            decreases n - i,
        {
            let mut mini = self.mini_stacks.remove(i);
            mini.update_with_count(key);
            self.mini_stacks.insert(i, mini);
            proof {
                assert forall|k: int|
                    0 <= k < self.mini_stacks@.len() implies (
                #[trigger] self.mini_stacks@[k]).wf() by {}
            }
            i = i + 1;
        }
    }

    /// Where the filter admits the key, admits it into every shadow
    /// stack; an unadmitted key touches none.
    pub fn handle_set(&mut self, key: u64, size: ObjectSize)
        requires
            old(self).wf(),
        ensures
            final(self).wf(),
            final(self).total_gets == old(self).total_gets,
            final(self).mini_stacks@.len() == old(self).mini_stacks@.len(),
            !spec_should_sample(key) ==> *final(self) == *old(self),
            spec_should_sample(key) ==> forall|i: int|
                0 <= i < old(self).mini_stacks@.len() ==> mini_insert_rel(
                    #[trigger] old(self).mini_stacks@[i],
                    final(self).mini_stacks@[i],
                    key,
                    size,
                ),
    {
        if !should_sample(key) {
            return;
        }
        let n = self.mini_stacks.len();
        let mut i: usize = 0;
        while i < n
            invariant
                self.wf(),
                n == self.mini_stacks@.len(),
                0 <= i <= n,
                self.total_gets == old(self).total_gets,
                forall|k: int| i <= k < n ==> self.mini_stacks@[k] == old(self).mini_stacks@[k],
                forall|k: int|
                    0 <= k < i ==> mini_insert_rel(
                        #[trigger] old(self).mini_stacks@[k],
                        self.mini_stacks@[k],
                        key,
                        size,
                    ),
            decreases n - i,
        {
            let mut mini = self.mini_stacks.remove(i);
            mini.insert(key, size);
            self.mini_stacks.insert(i, mini);
            proof {
                assert forall|k: int|
                    0 <= k < self.mini_stacks@.len() implies (
                #[trigger] self.mini_stacks@[k]).wf() by {}
            }
            i = i + 1;
        }
    }

    /// Where the filter admits the key, forgets it from every shadow
    /// stack; an unadmitted key touches none.
    pub fn handle_del(&mut self, key: u64)
        requires
            old(self).wf(),
        ensures
            final(self).wf(),
            final(self).total_gets == old(self).total_gets,
            final(self).mini_stacks@.len() == old(self).mini_stacks@.len(),
            !spec_should_sample(key) ==> *final(self) == *old(self),
            spec_should_sample(key) ==> forall|i: int|
                0 <= i < old(self).mini_stacks@.len() ==> mini_remove_rel(
                    #[trigger] old(self).mini_stacks@[i],
                    final(self).mini_stacks@[i],
                    key,
                ),
    {
        if !should_sample(key) {
            return;
        }
        let n = self.mini_stacks.len();
        let mut i: usize = 0;
        while i < n
            invariant
                self.wf(),
                n == self.mini_stacks@.len(),
                0 <= i <= n,
                self.total_gets == old(self).total_gets,
                forall|k: int| i <= k < n ==> self.mini_stacks@[k] == old(self).mini_stacks@[k],
                forall|k: int|
                    0 <= k < i ==> mini_remove_rel(
                        #[trigger] old(self).mini_stacks@[k],
                        self.mini_stacks@[k],
                        key,
                    ),
            decreases n - i,
        {
            let mut mini = self.mini_stacks.remove(i);
            mini.remove(key);
            self.mini_stacks.insert(i, mini);
            proof {
                assert forall|k: int|
                    0 <= k < self.mini_stacks@.len() implies (
                #[trigger] self.mini_stacks@[k]).wf() by {}
            }
            i = i + 1;
        }
    }

    /// Resizes every shadow stack to the miniature of `size`.
    pub fn handle_resize(&mut self, size: CacheSize)
        requires
            old(self).wf(),
        ensures
            final(self).wf(),
            final(self).total_gets == old(self).total_gets,
            final(self).mini_stacks@.len() == old(self).mini_stacks@.len(),
            forall|i: int|
                0 <= i < old(self).mini_stacks@.len() ==> mini_resize_rel(
                    #[trigger] old(self).mini_stacks@[i],
                    final(self).mini_stacks@[i],
                    spec_mini_stack_size(size),
                ),
    {
        let mini_size = get_mini_stack_size(size);
        let n = self.mini_stacks.len();
        let mut i: usize = 0;
        while i < n
            invariant
                self.wf(),
                n == self.mini_stacks@.len(),
                0 <= i <= n,
                mini_size == spec_mini_stack_size(size),
                self.total_gets == old(self).total_gets,
                forall|k: int| i <= k < n ==> self.mini_stacks@[k] == old(self).mini_stacks@[k],
                forall|k: int|
                    0 <= k < i ==> mini_resize_rel(
                        #[trigger] old(self).mini_stacks@[k],
                        self.mini_stacks@[k],
                        spec_mini_stack_size(size),
                    ),
            decreases n - i,
        {
            let mut mini = self.mini_stacks.remove(i);
            mini.resize(mini_size);
            self.mini_stacks.insert(i, mini);
            proof {
                assert forall|k: int|
                    0 <= k < self.mini_stacks@.len() implies (
                #[trigger] self.mini_stacks@[k]).wf() by {}
            }
            i = i + 1;
        }
    }

    /// Clears every shadow stack and the sampled get total.
    pub fn handle_wipe(&mut self)
        requires
            old(self).wf(),
        ensures
            final(self).wf(),
            final(self).total_gets == 0,
            final(self).mini_stacks@.len() == old(self).mini_stacks@.len(),
            forall|i: int|
                0 <= i < old(self).mini_stacks@.len() ==> mini_clear_rel(
                    #[trigger] old(self).mini_stacks@[i],
                    final(self).mini_stacks@[i],
                ),
    {
        let n = self.mini_stacks.len();
        let mut i: usize = 0;
        while i < n
            invariant
                self.wf(),
                n == self.mini_stacks@.len(),
                0 <= i <= n,
                forall|k: int| i <= k < n ==> self.mini_stacks@[k] == old(self).mini_stacks@[k],
                forall|k: int|
                    0 <= k < i ==> mini_clear_rel(
                        #[trigger] old(self).mini_stacks@[k],
                        self.mini_stacks@[k],
                    ),
            decreases n - i,
        {
            let mut mini = self.mini_stacks.remove(i);
            mini.clear();
            self.mini_stacks.insert(i, mini);
            proof {
                assert forall|k: int|
                    0 <= k < self.mini_stacks@.len() implies (
                #[trigger] self.mini_stacks@[k]).wf() by {}
            }
            i = i + 1;
        }
        self.total_gets = 0;
    }

    /// Forgets the given evicted keys from every shadow stack but the one
    /// at `exclude_index`, which already served them.
    pub fn apply_evictions(&mut self, exclude_index: usize, evictions: &Vec<u64>)
        requires
            old(self).wf(),
        ensures
            final(self).wf(),
            final(self).total_gets == old(self).total_gets,
            final(self).mini_stacks@.len() == old(self).mini_stacks@.len(),
            forall|i: int|
                0 <= i < old(self).mini_stacks@.len() && i != exclude_index ==> mini_removes_rel(
                    evictions@,
                    #[trigger] old(self).mini_stacks@[i],
                    final(self).mini_stacks@[i],
                ),
            exclude_index < old(self).mini_stacks@.len() ==> final(self).mini_stacks@[exclude_index as int]
                == old(self).mini_stacks@[exclude_index as int],
    {
        let n = self.mini_stacks.len();
        let mut i: usize = 0;
        while i < n
            invariant
                self.wf(),
                n == self.mini_stacks@.len(),
                0 <= i <= n,
                self.total_gets == old(self).total_gets,
                forall|k: int| i <= k < n ==> self.mini_stacks@[k] == old(self).mini_stacks@[k],
                forall|k: int|
                    0 <= k < i && k != exclude_index ==> mini_removes_rel(
                        evictions@,
                        #[trigger] old(self).mini_stacks@[k],
                        self.mini_stacks@[k],
                    ),
                forall|k: int|
                    0 <= k < i && k == exclude_index ==> self.mini_stacks@[k] == old(
                        self,
                    ).mini_stacks@[k],
            decreases n - i,
        {
            if i != exclude_index {
                let mut mini = self.mini_stacks.remove(i);
                let ghost mini_start = mini;
                let m = evictions.len();
                let mut j: usize = 0;
                while j < m
                    invariant
                        mini.wf(),
                        m == evictions@.len(),
                        0 <= j <= m,
                        mini_removes_rel(evictions@.subrange(0, j as int), mini_start, mini),
                    decreases m - j,
                {
                    let ghost mini_pre = mini;
                    mini.remove(evictions[j]);
                    proof {
                        lemma_mini_removes_snoc(
                            evictions@.subrange(0, j as int),
                            mini_start,
                            mini_pre,
                            mini,
                            evictions@[j as int],
                        );
                        assert(evictions@.subrange(0, j as int).push(evictions@[j as int])
                            =~= evictions@.subrange(0, j + 1));
                    }
                    j = j + 1;
                }
                proof {
                    assert(evictions@.subrange(0, m as int) =~= evictions@);
                }
                self.mini_stacks.insert(i, mini);
                proof {
                    assert forall|k: int|
                        0 <= k < self.mini_stacks@.len() implies (
                    #[trigger] self.mini_stacks@[k]).wf() by {}
                }
            }
            i = i + 1;
        }
    }

    /// Whether no shadow stack of `minis` orders under `policy`.
    pub open spec fn spec_no_mini_of(minis: Seq<MiniStack>, policy: PaperPolicy) -> bool {
        forall|c: int|
            0 <= c < minis.len() ==> (#[trigger] minis[c]).stack.spec_policy_of() != policy
    }

    /// Whether `minis` holds a stack of the current policy and one that
    /// no other beats, yet that one's miss ratio is not strictly below
    /// the current stack's: the selector then stands pat.
    pub open spec fn spec_no_better_mini(minis: Seq<MiniStack>, policy: PaperPolicy) -> bool {
        exists|b: int, c: int|
            #![trigger minis[b], minis[c]]
            {
                &&& 0 <= b < minis.len()
                &&& 0 <= c < minis.len()
                &&& minis[c].stack.spec_policy_of() == policy
                &&& (forall|j: int|
                    0 <= j < minis.len() ==> !mini_lex_better(#[trigger] minis[j], minis[b]))
                &&& !miss_ratio_lt(minis[b].hits, minis[b].count, minis[c].hits, minis[c].count)
            }
    }

    /// Picks the policy of the shadow stack with the strictly best
    /// observed miss ratio: the first stack no other orders strictly
    /// better than, ties broken toward the smaller per-object overhead,
    /// and only where it beats the current policy's own shadow stack.
    /// Nothing is picked where no stack orders under the current policy
    /// or where none strictly beats it.
    pub fn get_optimal_policy(&self, current_policy: &PaperPolicy) -> (r: Option<PaperPolicy>)
        requires
            self.wf(),
        ensures
            match r {
                Some(p) => exists|b: int, c: int|
                    {
                        &&& 0 <= b < self.mini_stacks@.len()
                        &&& 0 <= c < self.mini_stacks@.len()
                        &&& p == (#[trigger] self.mini_stacks@[b]).policy
                        &&& (#[trigger] self.mini_stacks@[c]).wf()
                        &&& self.mini_stacks@[c].stack.spec_policy_of() == *current_policy
                        &&& miss_ratio_lt(
                            self.mini_stacks@[b].hits,
                            self.mini_stacks@[b].count,
                            self.mini_stacks@[c].hits,
                            self.mini_stacks@[c].count,
                        )
                        &&& forall|j: int|
                            0 <= j < self.mini_stacks@.len() ==> !mini_lex_better(
                                #[trigger] self.mini_stacks@[j],
                                self.mini_stacks@[b],
                            )
                    },
                None => MiniStackManager::spec_no_mini_of(self.mini_stacks@, *current_policy)
                    || MiniStackManager::spec_no_better_mini(self.mini_stacks@, *current_policy),
            },
    {
        let n = self.mini_stacks.len();
        if n == 0 {
            return None;
        }
        // the current policy's own shadow stack
        let mut current: Option<usize> = None;
        let mut i: usize = 0;
        loop
            invariant_except_break
                current is None,
            invariant
                self.wf(),
                n == self.mini_stacks@.len(),
                0 <= i <= n,
                forall|k: int|
                    0 <= k < i ==> (#[trigger] self.mini_stacks@[k]).stack.spec_policy_of()
                        != *current_policy,
            ensures
                match current {
                    Some(c) => 0 <= c < n && self.mini_stacks@[c as int].stack.spec_policy_of()
                        == *current_policy,
                    None => MiniStackManager::spec_no_mini_of(self.mini_stacks@, *current_policy),
                },
            decreases n - i,
        {
            if i >= n {
                break;
            }
            if self.mini_stacks[i].is_policy(current_policy) {
                current = Some(i);
                break;
            }
            i = i + 1;
        }
        let Some(current_index) = current else {
            return None;
        };
        // the first shadow stack none orders strictly better than
        let mut best: usize = 0;
        let mut j: usize = 1;
        while j < n
            invariant
                self.wf(),
                n == self.mini_stacks@.len(),
                best < n,
                best <= j <= n,
                forall|k: int|
                    0 <= k < j ==> !mini_lex_better(
                        #[trigger] self.mini_stacks@[k],
                        self.mini_stacks@[best as int],
                    ),
            decreases n - j,
        {
            let a = &self.mini_stacks[j];
            let b = &self.mini_stacks[best];
            let cmp = cmp_miss_ratio(a.hits, a.count, b.hits, b.count);
            let better = if cmp == -1 {
                true
            } else if cmp == 0 {
                get_policy_overhead(&a.policy) < get_policy_overhead(&b.policy)
            } else {
                false
            };
            if better {
                let ghost prev = best as int;
                best = j;
                proof {
                    assert forall|k: int|
                        0 <= k < j + 1 implies !mini_lex_better(
                        #[trigger] self.mini_stacks@[k],
                        self.mini_stacks@[best as int],
                    ) by {
                        if k < j {
                            lemma_best_carries(
                                self.mini_stacks@[k],
                                self.mini_stacks@[best as int],
                                self.mini_stacks@[prev],
                            );
                        } else {
                            lemma_mini_lex_irrefl(self.mini_stacks@[best as int]);
                        }
                    }
                }
            } else {
                proof {
                    assert forall|k: int|
                        0 <= k < j + 1 implies !mini_lex_better(
                        #[trigger] self.mini_stacks@[k],
                        self.mini_stacks@[best as int],
                    ) by {}
                }
            }
            j = j + 1;
        }
        let bs = &self.mini_stacks[best];
        let cs = &self.mini_stacks[current_index];
        if cmp_miss_ratio(bs.hits, bs.count, cs.hits, cs.count) == -1 {
            Some(bs.policy)
        } else {
            proof {
                assert(MiniStackManager::spec_no_better_mini(self.mini_stacks@, *current_policy));
            }
            None
        }
    }
}

/// No shadow stack orders strictly better than itself.
pub proof fn lemma_mini_lex_irrefl(a: MiniStack)
    ensures
        !mini_lex_better(a, a),
{
}

/// The strict rational order on miss ratios is transitive.
proof fn lemma_ratio_lt_trans(h1: u64, c1: u64, h2: u64, c2: u64, h3: u64, c3: u64)
    requires
        miss_ratio_lt(h1, c1, h2, c2),
        miss_ratio_lt(h2, c2, h3, c3),
    ensures
        miss_ratio_lt(h1, c1, h3, c3),
{
    if c3 == 0 {
        assert(h2 > 0);
        assert(h1 * c2 > h2 * c1);
        assert(h1 > 0) by (nonlinear_arith)
            requires
                h1 * c2 > h2 * c1,
                h2 > 0,
                c1 > 0,
        ;
    } else {
        assert(h1 * c3 > h3 * c1) by (nonlinear_arith)
            requires
                h1 * c2 > h2 * c1,
                h2 * c3 > h3 * c2,
                c1 > 0,
                c2 > 0,
                c3 > 0,
        ;
    }
}

/// A strictly lower miss ratio stays strictly lower across an equal one.
proof fn lemma_ratio_lt_eq_trans(h1: u64, c1: u64, h2: u64, c2: u64, h3: u64, c3: u64)
    requires
        miss_ratio_lt(h1, c1, h2, c2),
        miss_ratio_eq(h2, c2, h3, c3),
    ensures
        miss_ratio_lt(h1, c1, h3, c3),
{
    if c2 == 0 {
        if c3 == 0 {
        } else {
            assert(h3 == 0);
            assert(h1 > 0);
            assert(h1 * c3 > h3 * c1) by (nonlinear_arith)
                requires
                    h1 > 0,
                    c3 > 0,
                    h3 == 0,
            ;
        }
    } else {
        if c3 == 0 {
            assert(h2 == 0);
            assert(h1 * c2 > h2 * c1);
            assert(h1 > 0) by (nonlinear_arith)
                requires
                    h1 * c2 > 0,
                    c2 > 0,
            ;
        } else {
            assert(h1 * c3 > h3 * c1) by (nonlinear_arith)
                requires
                    h1 * c2 > h2 * c1,
                    h2 * c3 == h3 * c2,
                    c1 > 0,
                    c2 > 0,
                    c3 > 0,
            ;
        }
    }
}

/// An equal miss ratio stays strictly lower across a strictly lower one.
proof fn lemma_ratio_eq_lt_trans(h1: u64, c1: u64, h2: u64, c2: u64, h3: u64, c3: u64)
    requires
        miss_ratio_eq(h1, c1, h2, c2),
        miss_ratio_lt(h2, c2, h3, c3),
    ensures
        miss_ratio_lt(h1, c1, h3, c3),
{
    assert(c2 > 0);
    if c1 == 0 {
        assert(h2 == 0);
        if c3 == 0 {
            assert(h2 > 0);
        } else {
            assert(h2 * c3 > h3 * c2);
            assert(false) by (nonlinear_arith)
                requires
                    h2 == 0,
                    h2 * c3 > h3 * c2,
        ;
        }
    } else {
        assert(h1 * c2 == h2 * c1);
        if c3 == 0 {
            assert(h2 > 0);
            assert(h1 > 0) by (nonlinear_arith)
                requires
                    h1 * c2 == h2 * c1,
                    h2 > 0,
                    c1 > 0,
                    c2 > 0,
            ;
        } else {
            assert(h1 * c3 > h3 * c1) by (nonlinear_arith)
                requires
                    h1 * c2 == h2 * c1,
                    h2 * c3 > h3 * c2,
                    c1 > 0,
                    c2 > 0,
                    c3 > 0,
            ;
        }
    }
}

/// Equality of miss ratios is transitive.
proof fn lemma_ratio_eq_trans(h1: u64, c1: u64, h2: u64, c2: u64, h3: u64, c3: u64)
    requires
        miss_ratio_eq(h1, c1, h2, c2),
        miss_ratio_eq(h2, c2, h3, c3),
    ensures
        miss_ratio_eq(h1, c1, h3, c3),
{
    if c1 == 0 {
        if c2 == 0 {
            if c3 == 0 {
            } else {
                assert(h3 == 0);
            }
        } else {
            assert(h2 == 0);
            if c3 == 0 {
            } else {
                assert(h2 * c3 == h3 * c2);
                assert(h3 == 0) by (nonlinear_arith)
                    requires
                        h2 == 0,
                        h2 * c3 == h3 * c2,
                        c2 > 0,
                ;
            }
        }
    } else {
        if c2 == 0 {
            assert(h1 == 0);
            if c3 == 0 {
            } else {
                assert(h3 == 0);
                assert(h1 * c3 == h3 * c1);
            }
        } else {
            assert(h1 * c2 == h2 * c1);
            if c3 == 0 {
                assert(h2 == 0);
                assert(h1 == 0) by (nonlinear_arith)
                    requires
                        h1 * c2 == h2 * c1,
                        h2 == 0,
                        c2 > 0,
                ;
            } else {
                assert(h2 * c3 == h3 * c2);
                assert(h1 * c3 == h3 * c1) by (nonlinear_arith)
                    requires
                        h1 * c2 == h2 * c1,
                        h2 * c3 == h3 * c2,
                        c2 > 0,
                ;
            }
        }
    }
}

/// The strictly-better order on shadow stacks is transitive.
proof fn lemma_mini_lex_trans(a: MiniStack, b: MiniStack, c: MiniStack)
    requires
        mini_lex_better(a, b),
        mini_lex_better(b, c),
    ensures
        mini_lex_better(a, c),
{
    if miss_ratio_lt(a.hits, a.count, b.hits, b.count) {
        if miss_ratio_lt(b.hits, b.count, c.hits, c.count) {
            lemma_ratio_lt_trans(a.hits, a.count, b.hits, b.count, c.hits, c.count);
        } else {
            lemma_ratio_lt_eq_trans(a.hits, a.count, b.hits, b.count, c.hits, c.count);
        }
    } else {
        if miss_ratio_lt(b.hits, b.count, c.hits, c.count) {
            lemma_ratio_eq_lt_trans(a.hits, a.count, b.hits, b.count, c.hits, c.count);
        } else {
            lemma_ratio_eq_trans(a.hits, a.count, b.hits, b.count, c.hits, c.count);
        }
    }
}

/// A shadow stack no other orders strictly better than keeps that
/// standing when the best moves to one strictly better than the old.
pub proof fn lemma_best_carries(a: MiniStack, b_new: MiniStack, b_old: MiniStack)
    requires
        !mini_lex_better(a, b_old),
        mini_lex_better(b_new, b_old),
    ensures
        !mini_lex_better(a, b_new),
{
    if mini_lex_better(a, b_new) {
        lemma_mini_lex_trans(a, b_new, b_old);
    }
}

} // verus!
