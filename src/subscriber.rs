//! Delivery of tick outcomes to subscribers over std channels.

use std::sync::mpsc::{Receiver, Sender, SyncSender, TrySendError};

use vstd::prelude::*;

use crate::snapshot::{copy_outcome, TickOutcome};

verus! {

#[verifier::external_type_specification]
#[verifier::external_body]
#[verifier::reject_recursive_types(T)]
pub struct ExSender<T>(Sender<T>);

#[verifier::external_type_specification]
#[verifier::external_body]
#[verifier::reject_recursive_types(T)]
pub struct ExSyncSender<T>(SyncSender<T>);

#[verifier::external_type_specification]
#[verifier::external_body]
#[verifier::reject_recursive_types(T)]
pub struct ExReceiver<T>(Receiver<T>);

/// Relies on std::sync::mpsc::channel: it opens an unbounded channel and
/// hands back both of its ends.
pub assume_specification<T>[ std::sync::mpsc::channel::<T> ]() -> (Sender<T>, Receiver<T>);

/// Relies on std::sync::mpsc::sync_channel: it opens a channel that holds at
/// most `bound` messages and hands back both of its ends.
pub assume_specification<T>[ std::sync::mpsc::sync_channel::<T> ](bound: usize) -> (
    SyncSender<T>,
    Receiver<T>,
);

/// What became of one attempt to hand an outcome to a subscriber.
#[derive(Copy, Clone, Debug, PartialEq, Eq, Structural)]
pub enum Delivery {
    /// The outcome was enqueued.
    Delivered,
    /// The channel was full; the outcome was dropped for this subscriber.
    Dropped,
    /// The receiving side is gone for good.
    Closed,
}

/// A subscriber stays registered unless its receiving side has closed.
pub open spec fn stays(d: Delivery) -> bool {
    !(d is Closed)
}

/// Whether a subscriber is kept after a delivery attempt with result `d`.
pub fn keeps(d: Delivery) -> (r: bool)
    ensures
        r == stays(d),
{
    match d {
        Delivery::Closed => false,
        _ => true,
    }
}

/// Relies on Sender::send: on an unbounded channel it never blocks and fails
/// only when the receiving side has been dropped.
#[verifier::external_body]
fn send_unbounded(tx: &Sender<TickOutcome>, outcome: TickOutcome) -> (r: Delivery)
    ensures
        !(r is Dropped),
{
    match tx.send(outcome) {
        Ok(()) => Delivery::Delivered,
        Err(_) => Delivery::Closed,
    }
}

/// Relies on SyncSender::try_send: it never blocks; it reports a full
/// channel and a dropped receiving side apart.
#[verifier::external_body]
fn send_bounded(tx: &SyncSender<TickOutcome>, outcome: TickOutcome) -> (r: Delivery) {
    match tx.try_send(outcome) {
        Ok(()) => Delivery::Delivered,
        Err(TrySendError::Full(_)) => Delivery::Dropped,
        Err(TrySendError::Disconnected(_)) => Delivery::Closed,
    }
}

/// A sink that receives tick outcomes.
#[derive(Debug)]
pub enum Subscriber {
    /// Unbounded channel (never blocks, may grow without bound).
    Unbounded(Sender<TickOutcome>),
    /// Bounded channel (drops the outcome when full).
    Bounded(SyncSender<TickOutcome>),
}

impl Subscriber {
    /// Try to hand a copy of `outcome` (`copy_outcome`) to this subscriber,
    /// without blocking. Whether it is taken depends on the channel alone;
    /// an unbounded subscriber never drops an outcome.
    pub fn deliver(&self, outcome: &TickOutcome) -> (r: Delivery)
        ensures
            self is Unbounded ==> !(r is Dropped),
    {
        match self {
            Subscriber::Unbounded(tx) => send_unbounded(tx, copy_outcome(outcome)),
            Subscriber::Bounded(tx) => send_bounded(tx, copy_outcome(outcome)),
        }
    }

    /// Send an outcome to this subscriber: `keeps` of what `deliver` reports.
    /// Returns false if the subscriber is disconnected.
    pub fn send(&self, outcome: &TickOutcome) -> bool {
        keeps(self.deliver(outcome))
    }
}

} // verus!
