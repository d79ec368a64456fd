//! The event bus between the foreground and the workers: one channel of
//! unbounded capacity, so queueing never blocks and a send fails only
//! when the workers are gone.  The channel carries no view: nothing is
//! promised of what comes out of it, and the workers' own contracts state
//! what they do with every event they do receive.
use vstd::prelude::*;

use crossbeam_channel::{Receiver, Sender};

use crate::events::WorkerEvent;

verus! {

#[verifier::external_type_specification]
#[verifier::external_body]
#[verifier::reject_recursive_types(T)]
pub struct ExSender<T>(Sender<T>);

#[verifier::external_type_specification]
#[verifier::external_body]
#[verifier::reject_recursive_types(T)]
pub struct ExReceiver<T>(Receiver<T>);

/// Relies on crossbeam's `unbounded`: builds the two ends of a channel
/// of unbounded capacity.
#[verifier::external_body]
pub fn new_event_channel() -> (Sender<WorkerEvent>, Receiver<WorkerEvent>) {
    crossbeam_channel::unbounded()
}

/// Relies on crossbeam's `Sender::try_send`: queues the event without
/// blocking, failing only when the receiving end is gone.  Returns
/// whether the event was queued.
#[verifier::external_body]
pub fn send_event(sender: &Sender<WorkerEvent>, event: WorkerEvent) -> bool {
    sender.try_send(event).is_ok()
}

/// Relies on crossbeam's `Receiver::try_recv`: takes the next queued
/// event without blocking, or `None` where none waits.
#[verifier::external_body]
pub fn recv_event(listener: &Receiver<WorkerEvent>) -> Option<WorkerEvent> {
    match listener.try_recv() {
        Ok(event) => Some(event),
        Err(_) => None,
    }
}

} // verus!
