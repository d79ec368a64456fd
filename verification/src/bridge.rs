//! The small set of outside calls the core relies on: the system clock,
//! process memory readings, key hashing and the shared value handles.
//! Each item names the outside function it trusts and why its contract
//! holds of it.
use vstd::prelude::*;

use std::sync::Arc;

verus! {

/// The hash of a raw key, as the seedless FxHasher computes it.  The hasher
/// holds no per-process seed, so the result depends on the key alone.
pub uninterp spec fn hash_of(key: u64) -> u64;

/// Relies on rustc_hash's `FxBuildHasher::hash_one`: the hasher is stateless
/// and seedless, so hashing is a pure function of the key.
#[verifier::external_body]
pub fn hash_raw_key(key: u64) -> (r: u64)
    ensures
        r == hash_of(key),
{
    std::hash::BuildHasher::hash_one(&rustc_hash::FxBuildHasher, key)
}

/// Relies on kwik's `time::timestamp`: the current wall-clock time in
/// milliseconds since the epoch.  Nothing can be promised of a clock
/// reading.  The call panics only on a system clock before the epoch.
#[verifier::external_body]
pub fn now_millis() -> u64 {
    kwik::time::timestamp()
}

/// Relies on kwik's `sys::mem::rss`: the resident set size of the current
/// process in bytes, where the system exposes it.  The reading depends on
/// the machine, so nothing is promised of it.
#[verifier::external_body]
pub fn process_rss() -> Option<u64> {
    match kwik::sys::mem::rss(None) {
        Ok(value) => Some(value),
        Err(_) => None,
    }
}

/// Relies on kwik's `sys::mem::hwm`: the resident set size high-water mark
/// of the current process in bytes, where the system exposes it.
#[verifier::external_body]
pub fn process_hwm() -> Option<u64> {
    match kwik::sys::mem::hwm(None) {
        Ok(value) => Some(value),
        Err(_) => None,
    }
}

/// Relies on std's `Arc::clone`: the clone is a handle to the same
/// allocation, so it dereferences to the same value.
#[verifier::external_body]
pub fn share_value(data: &Arc<u64>) -> (r: Arc<u64>)
    ensures
        r@ == data@,
{
    Arc::clone(data)
}

/// Relies on typesize's `TypeSize::get_size` for `u64`: the reported size
/// is `mem::size_of::<u64>()`, which is 8 bytes.
#[verifier::external_body]
pub fn value_mem_size(data: &u64) -> (r: usize)
    ensures
        r == 8,
{
    typesize::TypeSize::get_size(data)
}

} // verus!
