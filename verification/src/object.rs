//! The stored objects: a raw key, a shared handle to the value, and an
//! optional expiry instant in milliseconds.
use vstd::prelude::*;

use std::sync::Arc;

use crate::bridge;

verus! {

/// Object and overhead sizes, in bytes.
pub type ObjectSize = u32;

/// An object's expiry instant in milliseconds since the epoch, or `None`
/// where the object does not expire.
pub type ExpireTime = Option<u64>;

/// One stored object.  Immutable after construction except for its expiry,
/// which a `ttl` call may rewrite.  The raw key is kept so a lookup through
/// a hashed slot can detect hash collisions.
pub struct Object {
    pub key: u64,
    pub data: Arc<u64>,
    pub expiry: ExpireTime,
}

impl Object {
    /// The raw key the object was stored under.
    pub open spec fn spec_key(self) -> u64 {
        self.key
    }

    /// The stored value.
    pub open spec fn spec_data(self) -> u64 {
        self.data@
    }

    /// The expiry instant, if one is set.
    pub open spec fn spec_expiry(self) -> ExpireTime {
        self.expiry
    }

    /// Whether the object is expired at `now`: an expiry is set and is not
    /// in the future.
    pub open spec fn spec_is_expired(self, now: u64) -> bool {
        match self.expiry {
            Some(expiry) => expiry <= now,
            None => false,
        }
    }

    /// Builds an object expiring `ttl` seconds after `now`; a `ttl` of zero
    /// or `None` means the object never expires.
    pub fn new(key: u64, data: u64, ttl: Option<u32>, now: u64) -> (r: Object)
        ensures
            r.spec_key() == key,
            r.spec_data() == data,
            r.spec_expiry() == spec_expiry_from_ttl(ttl, now),
    {
        let expiry = match ttl {
            Some(0) | None => None,
            Some(t) => Some(get_expiry_from_ttl(t, now)),
        };
        Object { key, data: Arc::new(data), expiry }
    }

    /// A shared handle to the stored value.
    pub fn data(&self) -> (r: Arc<u64>)
        ensures
            r@ == self.spec_data(),
    {
        bridge::share_value(&self.data)
    }

    /// The size of the stored value in bytes.
    pub fn size(&self) -> (r: ObjectSize)
        ensures
            r == VALUE_SLOT_SIZE,
    {
        bridge::value_mem_size(&self.data) as ObjectSize
    }

    /// Whether `key` is the raw key the object was stored under.
    pub fn key_matches(&self, key: &u64) -> (r: bool)
        ensures
            r == (self.spec_key() == key),
    {
        self.key == *key
    }

    /// The expiry instant, if one is set.
    pub fn expiry(&self) -> (r: ExpireTime)
        ensures
            r == self.spec_expiry(),
    {
        self.expiry
    }

    /// Whether the object is expired at `now`.
    pub fn is_expired(&self, now: u64) -> (r: bool)
        ensures
            r == self.spec_is_expired(now),
    {
        match self.expiry {
            Some(expiry) => expiry <= now,
            None => false,
        }
    }

    /// Rewrites the expiry to `ttl` seconds after `now`; a `ttl` of zero or
    /// `None` clears it.
    pub fn expires(&mut self, ttl: Option<u32>, now: u64)
        ensures
            final(self).spec_key() == old(self).spec_key(),
            final(self).spec_data() == old(self).spec_data(),
            final(self).spec_expiry() == spec_expiry_from_ttl(ttl, now),
    {
        self.expiry = match ttl {
            Some(0) | None => None,
            Some(t) => Some(get_expiry_from_ttl(t, now)),
        };
    }

    /// Rebuilds the object's handle without copying the value.
    pub fn share(&self) -> (r: Object)
        ensures
            r.spec_key() == self.spec_key(),
            r.spec_data() == self.spec_data(),
            r.spec_expiry() == self.spec_expiry(),
    {
        Object { key: self.key, data: bridge::share_value(&self.data), expiry: self.expiry }
    }
}

/// The byte width of a stored value.
pub const VALUE_SLOT_SIZE: u32 = 8;

/// The byte width of a stored raw key.
pub const KEY_SLOT_SIZE: u32 = 8;

/// The byte width of the expiry slot every object carries.
pub const EXPIRY_SLOT_SIZE: u32 = 16;

/// The expiry that a `ttl` of `ttl` seconds sets at instant `now`, in
/// milliseconds, saturating at the largest instant.
pub open spec fn spec_expiry_from_ttl(ttl: Option<u32>, now: u64) -> ExpireTime {
    match ttl {
        Some(t) => if t == 0 {
            None
        } else if now + t * 1000 <= u64::MAX {
            Some((now + t * 1000) as u64)
        } else {
            Some(u64::MAX)
        },
        None => None,
    }
}

/// The instant `ttl` seconds after `now`, in milliseconds, saturating at
/// the largest instant.
pub open spec fn spec_saturating_instant(now: u64, ttl: u32) -> u64 {
    if now + ttl * 1000 <= u64::MAX {
        (now + ttl * 1000) as u64
    } else {
        u64::MAX
    }
}

/// The instant `ttl` seconds after `now`, in milliseconds, saturating at
/// the largest instant.
pub fn get_expiry_from_ttl(ttl: u32, now: u64) -> (r: u64)
    ensures
        r == spec_saturating_instant(now, ttl),
        ttl > 0 ==> Some(r) == spec_expiry_from_ttl(Some(ttl), now),
{
    now.saturating_add((ttl as u64) * 1000)
}

} // verus!
