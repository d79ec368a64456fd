//! The events the foreground hands to the workers, and their projections
//! onto the eviction stacks and the trace log.
use vstd::prelude::*;

use crate::CacheSize;
use crate::HashedKey;
use crate::object::{ExpireTime, ObjectSize};
use crate::policy::PaperPolicy;

verus! {

/// One foreground operation, as the workers see it.
#[derive(Clone, Copy, Debug)]
pub enum WorkerEvent {
    /// A get of the hashed key, and whether it hit.
    Get(HashedKey, bool),
    /// A set of the hashed key with its base size and expiry, and the
    /// base size and expiry of the object it replaced, if any.
    Put(HashedKey, ObjectSize, ExpireTime, Option<(ObjectSize, ExpireTime)>),
    /// A delete of the hashed key, with the expiry it carried.
    Del(HashedKey, ExpireTime),
    /// A TTL rewrite of the hashed key: the old and the new expiry.
    Ttl(HashedKey, ExpireTime, ExpireTime),
    /// All objects were wiped.
    Wipe,
    /// The cache was resized to the given maximum.
    Resize(CacheSize),
    /// The active policy was set.
    Policy(PaperPolicy),
}

/// One event as the eviction stacks see it.
#[derive(Clone, Copy, Debug, PartialEq, Eq, Structural)]
pub enum StackEvent {
    Get(HashedKey),
    Put(HashedKey, ObjectSize),
    Del(HashedKey),
    Wipe,
    Resize(CacheSize),
}

impl StackEvent {
    /// The stack-level projection of a worker event: only a get that hit
    /// touches the eviction order, and TTL and policy changes have no
    /// projection.
    pub open spec fn spec_from_worker_event(event: WorkerEvent) -> Option<StackEvent> {
        match event {
            WorkerEvent::Get(key, hit) => if hit {
                Some(StackEvent::Get(key))
            } else {
                None
            },
            WorkerEvent::Put(key, size, _, _) => Some(StackEvent::Put(key, size)),
            WorkerEvent::Del(key, _) => Some(StackEvent::Del(key)),
            WorkerEvent::Wipe => Some(StackEvent::Wipe),
            WorkerEvent::Resize(size) => Some(StackEvent::Resize(size)),
            _ => None,
        }
    }

    /// Projects a worker event onto the eviction stacks, where it has a
    /// projection.
    pub fn maybe_from_worker_event(event: &WorkerEvent) -> (r: Option<StackEvent>)
        ensures
            r == StackEvent::spec_from_worker_event(*event),
    {
        match event {
            WorkerEvent::Get(key, hit) => if *hit {
                Some(StackEvent::Get(*key))
            } else {
                None
            },
            WorkerEvent::Put(key, size, _, _) => Some(StackEvent::Put(*key, *size)),
            WorkerEvent::Del(key, _) => Some(StackEvent::Del(*key)),
            WorkerEvent::Wipe => Some(StackEvent::Wipe),
            WorkerEvent::Resize(size) => Some(StackEvent::Resize(*size)),
            _ => None,
        }
    }
}

/// One record of the trace log.  A wipe clears the log instead of being
/// recorded, so it has no trace form.
#[derive(Clone, Copy, Debug, PartialEq, Eq, Structural)]
pub enum TraceEvent {
    Get(HashedKey),
    Put(HashedKey, ObjectSize),
    Del(HashedKey),
    Resize(CacheSize),
}

impl TraceEvent {
    /// The trace form of a stack event, if it has one.
    pub open spec fn spec_from_stack_event(event: StackEvent) -> Option<TraceEvent> {
        match event {
            StackEvent::Get(key) => Some(TraceEvent::Get(key)),
            StackEvent::Put(key, size) => Some(TraceEvent::Put(key, size)),
            StackEvent::Del(key) => Some(TraceEvent::Del(key)),
            StackEvent::Wipe => None,
            StackEvent::Resize(size) => Some(TraceEvent::Resize(size)),
        }
    }

    /// Projects a stack event onto the trace log, where it has a trace
    /// form.
    pub fn maybe_from_stack_event(event: &StackEvent) -> (r: Option<TraceEvent>)
        ensures
            r == TraceEvent::spec_from_stack_event(*event),
    {
        match event {
            StackEvent::Get(key) => Some(TraceEvent::Get(*key)),
            StackEvent::Put(key, size) => Some(TraceEvent::Put(*key, *size)),
            StackEvent::Del(key) => Some(TraceEvent::Del(*key)),
            StackEvent::Wipe => None,
            StackEvent::Resize(size) => Some(TraceEvent::Resize(*size)),
        }
    }
}

} // verus!
