//! Trusted boundary to the event-broadcast channel (tokio's `broadcast`).
//!
//! Delivery is at-most-once per subscriber with a bounded backlog; a
//! subscriber that falls behind sees a lag mark and must resynchronize
//! from current state.  Nothing about delivery is assumed here: the
//! wrappers state only what can be called, and with what.

use vstd::prelude::*;

use crate::state::AppEvent;

verus! {

/// Declares tokio's broadcast `Sender`.
#[verifier::external_type_specification]
#[verifier::external_body]
#[verifier::reject_recursive_types(T)]
pub struct ExSender<T>(tokio::sync::broadcast::Sender<T>);

/// Declares tokio's broadcast `Receiver`.
#[verifier::external_type_specification]
#[verifier::external_body]
#[verifier::reject_recursive_types(T)]
pub struct ExReceiver<T>(tokio::sync::broadcast::Receiver<T>);

/// What one poll of a subscriber's queue yields.
#[derive(Debug, Clone)]
pub enum RecvOutcome {
    /// The next event, delivered in emission order per publisher.
    Event(AppEvent),
    /// Nothing queued right now.
    Empty,
    /// The subscriber fell behind and this many events were dropped; it
    /// should resynchronize by reading current state.
    Lagged(u64),
    /// Every sender is gone.
    Closed,
}

/// Relies on `tokio::sync::broadcast::channel`, which panics on a
/// capacity of zero or above `usize::MAX / 2`.
#[verifier::external_body]
pub(crate) fn bus_channel(capacity: usize) -> (r: (
    tokio::sync::broadcast::Sender<AppEvent>,
    tokio::sync::broadcast::Receiver<AppEvent>,
))
    requires
        0 < capacity <= usize::MAX / 2,
{
    tokio::sync::broadcast::channel(capacity)
}

/// Relies on `tokio::sync::broadcast::Sender::send`.  Whether anyone
/// receives the event depends on the subscribers, so nothing is claimed;
/// a send without subscribers is simply dropped.
#[verifier::external_body]
pub(crate) fn bus_send(sender: &tokio::sync::broadcast::Sender<AppEvent>, event: AppEvent) {
    let _ = sender.send(event);
}

/// Relies on `tokio::sync::broadcast::Sender::subscribe`: a new
/// subscriber that sees events sent from now on.
#[verifier::external_body]
pub(crate) fn bus_subscribe(sender: &tokio::sync::broadcast::Sender<AppEvent>) -> (r:
    tokio::sync::broadcast::Receiver<AppEvent>)
{
    sender.subscribe()
}

/// Relies on `tokio::sync::broadcast::Receiver::try_recv`, mapping its
/// outcome one arm to one.
#[verifier::external_body]
pub fn bus_try_recv(receiver: &mut tokio::sync::broadcast::Receiver<AppEvent>) -> (r:
    RecvOutcome)
{
    match receiver.try_recv() {
        Ok(event) => RecvOutcome::Event(event),
        Err(tokio::sync::broadcast::error::TryRecvError::Empty) => RecvOutcome::Empty,
        Err(tokio::sync::broadcast::error::TryRecvError::Lagged(n)) => RecvOutcome::Lagged(n),
        Err(tokio::sync::broadcast::error::TryRecvError::Closed) => RecvOutcome::Closed,
    }
}

} // verus!
