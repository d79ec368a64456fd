//! The error kinds of the cache's public operations.
use vstd::prelude::*;

verus! {

/// Every failure of a public cache operation.  The kinds are mutually
/// exclusive plain data; no operation wraps I/O detail into them.
#[derive(Clone, Copy, Debug, PartialEq, Eq, Structural)]
pub enum CacheError {
    /// A broken invariant or a dead worker; never returned on a normal path.
    Internal,
    /// The key was not found in the cache.
    KeyNotFound,
    /// The value size cannot be zero.
    ZeroValueSize,
    /// The value size cannot exceed the cache size.
    ExceedingValueSize,
    /// The cache size cannot be zero.
    ZeroCacheSize,
    /// At least one eviction policy must be configured.
    EmptyPolicies,
    /// The automatic policy cannot itself be configured.
    ConfiguredAutoPolicy,
    /// The configured eviction policies must be distinct.
    DuplicatePolicies,
    /// The requested policy is not among the configured ones.
    UnconfiguredPolicy,
    /// The policy text form could not be parsed.
    InvalidPolicy,
}

impl CacheError {
    /// A short human-readable description of the error.
    pub fn message(&self) -> (r: &'static str)
        ensures
            r@ == self.spec_message(),
    {
        match self {
            CacheError::Internal => "internal error",
            CacheError::KeyNotFound => "the key was not found in the cache",
            CacheError::ZeroValueSize => "the value size cannot be zero",
            CacheError::ExceedingValueSize => "the value size cannot exceed the cache size",
            CacheError::ZeroCacheSize => "the cache size cannot be zero",
            CacheError::EmptyPolicies => "must configure at least one eviction policy",
            CacheError::ConfiguredAutoPolicy => "cannot configure auto eviction policy",
            CacheError::DuplicatePolicies => "cannot configure duplicate eviction policies",
            CacheError::UnconfiguredPolicy => "unconfigured policy",
            CacheError::InvalidPolicy => "invalid policy",
        }
    }

    /// The text that `message` returns for each kind.
    pub open spec fn spec_message(self) -> Seq<char> {
        match self {
            CacheError::Internal => "internal error"@,
            CacheError::KeyNotFound => "the key was not found in the cache"@,
            CacheError::ZeroValueSize => "the value size cannot be zero"@,
            CacheError::ExceedingValueSize => "the value size cannot exceed the cache size"@,
            CacheError::ZeroCacheSize => "the cache size cannot be zero"@,
            CacheError::EmptyPolicies => "must configure at least one eviction policy"@,
            CacheError::ConfiguredAutoPolicy => "cannot configure auto eviction policy"@,
            CacheError::DuplicatePolicies => "cannot configure duplicate eviction policies"@,
            CacheError::UnconfiguredPolicy => "unconfigured policy"@,
            CacheError::InvalidPolicy => "invalid policy"@,
        }
    }
}

} // verus!
