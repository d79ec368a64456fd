//! An in-memory, size-bounded key/value cache with online selection among
//! several eviction policies.  The cache keeps a primary eviction stack for
//! the active policy together with sampled mini-stacks for the alternatives,
//! and can switch policies by replaying a bounded trace log.
//!
//! Keys and values are 64-bit integers and keys hash through the seedless
//! FxHasher: the stated contracts need a hash that is a function of the
//! key alone, which a per-process-seeded hasher cannot give.  Parameterized
//! policies carry their ratios as integer parts per million.
pub mod bridge;
pub mod bus;
pub mod cache;
pub mod error;
pub mod events;
pub mod expiries;
pub mod keylist;
pub mod laws;
pub mod map;
pub mod mini_stack;
pub mod object;
pub mod overhead;
pub mod policy;
pub mod stack;
pub mod status;
pub mod trace;
pub mod worker;

pub use crate::cache::PaperCache;
pub use crate::error::CacheError;
pub use crate::policy::PaperPolicy;

use vstd::prelude::*;

verus! {

/// Cache capacities and used sizes, in bytes.
pub type CacheSize = u64;

/// The 64-bit hash of a caller's key; all internal indexing uses it.
pub type HashedKey = u64;

} // verus!
