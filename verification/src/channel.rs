//! Receiving ends of inter-thread chunk and control channels.
//!
//! The channels themselves come from `crossbeam_channel`; what another
//! thread has sent can never be predicted, so the receive wrappers promise
//! nothing about which outcome arrives, only the shape of the outcome.

use vstd::prelude::*;

verus! {

#[verifier::external_type_specification]
#[verifier::external_body]
#[verifier::reject_recursive_types(T)]
pub struct ExReceiver<T>(crossbeam_channel::Receiver<T>);

/// Outcome of a non-blocking look at a channel.
pub enum PollOutcome<T> {
    /// A message was waiting.
    Msg(T),
    /// No message was waiting, the sender still exists.
    Empty,
    /// The channel is empty and every sender is gone.
    Disconnected,
}

/// Relies on crossbeam_channel::Receiver::recv: blocks until a message
/// arrives or all senders are dropped; which of the two happens depends on
/// the sending thread, so nothing is promised about the outcome.
#[verifier::external_body]
pub fn recv_blocking<T>(rx: &crossbeam_channel::Receiver<T>) -> (r: Option<T>) {
    match rx.recv() {
        Ok(v) => Option::Some(v),
        Err(crossbeam_channel::RecvError) => Option::None,
    }
}

/// Relies on crossbeam_channel::Receiver::try_recv: returns without
/// blocking; the outcome depends on the sending thread, so nothing is
/// promised about it.
#[verifier::external_body]
pub fn poll<T>(rx: &crossbeam_channel::Receiver<T>) -> (r: PollOutcome<T>) {
    match rx.try_recv() {
        Ok(v) => PollOutcome::Msg(v),
        Err(crossbeam_channel::TryRecvError::Empty) => PollOutcome::Empty,
        Err(crossbeam_channel::TryRecvError::Disconnected) => PollOutcome::Disconnected,
    }
}

} // verus!
