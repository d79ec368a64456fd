//! The per-object byte overheads that the reported used size accounts for:
//! a constant per eviction policy, and a constant for objects with a TTL.
use vstd::prelude::*;

use crate::object::{Object, ObjectSize, KEY_SLOT_SIZE, VALUE_SLOT_SIZE, EXPIRY_SLOT_SIZE};
use crate::policy::PaperPolicy;

verus! {

/// The estimated per-object bookkeeping of each policy's eviction
/// structures, in bytes.  `Auto` stands for no structure of its own.
pub open spec fn spec_policy_overhead(policy: PaperPolicy) -> ObjectSize {
    match policy {
        PaperPolicy::Auto => 0,
        // a map entry, an ordered-list entry, the hashed key, the count
        PaperPolicy::Lfu => (24 + 48 + 8 + 4) as ObjectSize,
        // an ordered-list entry and the hashed key
        PaperPolicy::Fifo => (48 + 8) as ObjectSize,
        // an ordered-list entry, the hashed key, the visited flag
        PaperPolicy::Clock => (48 + 8 + 1) as ObjectSize,
        // an ordered-list entry, the hashed key, the visited flag
        PaperPolicy::Sieve => (48 + 8 + 1) as ObjectSize,
        // an ordered-list entry and the hashed key
        PaperPolicy::Lru => (48 + 8) as ObjectSize,
        // an ordered-list entry and the hashed key
        PaperPolicy::Mru => (48 + 8) as ObjectSize,
        // an ordered-list entry, the hashed key, the object size
        PaperPolicy::TwoQ(_, _) => (48 + 8 + 4) as ObjectSize,
        // an ordered-list entry, the hashed key, the object size
        PaperPolicy::Arc => (48 + 8 + 4) as ObjectSize,
        // an ordered-list entry, the hashed key, the object size, the
        // frequency count
        PaperPolicy::SThreeFifo(_) => (48 + 8 + 4 + 1) as ObjectSize,
    }
}

/// The per-object overhead of `policy`'s eviction structures, in bytes.
pub fn get_policy_overhead(policy: &PaperPolicy) -> (r: ObjectSize)
    ensures
        r == spec_policy_overhead(*policy),
{
    match policy {
        PaperPolicy::Auto => 0,
        PaperPolicy::Lfu => 24 + 48 + 8 + 4,
        PaperPolicy::Fifo => 48 + 8,
        PaperPolicy::Clock => 48 + 8 + 1,
        PaperPolicy::Sieve => 48 + 8 + 1,
        PaperPolicy::Lru => 48 + 8,
        PaperPolicy::Mru => 48 + 8,
        PaperPolicy::TwoQ(_, _) => 48 + 8 + 4,
        PaperPolicy::Arc => 48 + 8 + 4,
        PaperPolicy::SThreeFifo(_) => 48 + 8 + 4 + 1,
    }
}

/// The extra bytes an object with an expiry costs: its expiry slot and an
/// entry of the time-ordered expiry index.
pub open spec fn spec_ttl_overhead() -> ObjectSize {
    (EXPIRY_SLOT_SIZE + 48) as ObjectSize
}

/// The per-object overhead of a set TTL, in bytes.
pub fn get_ttl_overhead() -> (r: ObjectSize)
    ensures
        r == spec_ttl_overhead(),
{
    EXPIRY_SLOT_SIZE + 48
}

/// The payload bytes every stored object occupies: its key, its value and
/// its expiry slot.
pub open spec fn spec_payload_size() -> ObjectSize {
    (KEY_SLOT_SIZE + VALUE_SLOT_SIZE + EXPIRY_SLOT_SIZE) as ObjectSize
}

/// The base size of an object: payload plus the TTL overhead where an
/// expiry is set.  The per-policy overhead is not part of it.
pub open spec fn spec_base_size(expiry: crate::object::ExpireTime) -> ObjectSize {
    if expiry is Some {
        (spec_payload_size() + spec_ttl_overhead()) as ObjectSize
    } else {
        spec_payload_size()
    }
}

/// Returns the base size of `object`: payload plus TTL overhead where an
/// expiry is set.
pub fn base_size(object: &Object) -> (r: ObjectSize)
    ensures
        r == spec_base_size(object.spec_expiry()),
{
    let payload = KEY_SLOT_SIZE + object.size() + EXPIRY_SLOT_SIZE;
    if object.expiry().is_some() {
        payload + get_ttl_overhead()
    } else {
        payload
    }
}

/// Returns the total size of `object` under `policy`: its base size plus
/// the policy's per-object overhead.
pub fn total_size(object: &Object, policy: &PaperPolicy) -> (r: ObjectSize)
    ensures
        r == spec_base_size(object.spec_expiry()) + spec_policy_overhead(*policy),
{
    base_size(object) + get_policy_overhead(policy)
}

} // verus!
