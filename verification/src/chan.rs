//! Trusted boundary around std's mpsc channels and the `rand` crate.
//!
//! The channels carry values between the calling threads and the worker;
//! what arrives on a channel depends on what other threads have done, so
//! none of these contracts promises anything about the values received.
//! The verified dispatcher and worker state what holds whatever came back.

use vstd::prelude::*;
use std::sync::mpsc::Receiver;
use std::sync::mpsc::Sender;

verus! {

#[verifier::external_type_specification]
#[verifier::external_body]
#[verifier::reject_recursive_types(T)]
pub struct ExSender<T>(Sender<T>);

#[verifier::external_type_specification]
#[verifier::external_body]
#[verifier::reject_recursive_types(T)]
pub struct ExReceiver<T>(Receiver<T>);

/// Outcome of one non-blocking look at a channel's receiving end.
pub enum Polled<T> {
    /// One queued item was taken off the channel.
    Item(T),
    /// No item is queued right now, but a sender still exists.
    Empty,
    /// No item is queued and every sender is gone.
    Closed,
}

/// Relies on std::sync::mpsc::channel: makes one connected
/// sender/receiver pair.
#[verifier::external_body]
pub(crate) fn new_channel<T>() -> (Sender<T>, Receiver<T>) {
    std::sync::mpsc::channel()
}

/// Relies on std::sync::mpsc::Sender::send: the result is true when the
/// receiving end still existed and the value was queued, false when the
/// channel is closed and the value was given back (here: dropped).
#[verifier::external_body]
pub(crate) fn send_on<T>(tx: &Sender<T>, v: T) -> bool {
    match tx.send(v) {
        Ok(()) => true,
        Err(_) => false,
    }
}

/// Relies on std::sync::mpsc::Receiver::try_recv: hands back one queued
/// item without blocking, or reports the channel empty or closed.
#[verifier::external_body]
pub(crate) fn poll_channel<T>(rx: &Receiver<T>) -> Polled<T> {
    match rx.try_recv() {
        Ok(v) => Polled::Item(v),
        Err(std::sync::mpsc::TryRecvError::Empty) => Polled::Empty,
        Err(std::sync::mpsc::TryRecvError::Disconnected) => Polled::Closed,
    }
}

/// Relies on std::sync::mpsc::Receiver::recv: blocks until an item
/// arrives (Some) or every sender is gone (None).
#[verifier::external_body]
pub(crate) fn recv_blocking<T>(rx: &Receiver<T>) -> Option<T> {
    match rx.recv() {
        Ok(v) => Some(v),
        Err(_) => None,
    }
}

/// Relies on rand::random: one u32 drawn uniformly from the thread-local
/// generator; nothing is promised of it.
#[verifier::external_body]
pub(crate) fn random_u32() -> u32 {
    rand::random::<u32>()
}

} // verus!
