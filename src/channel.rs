//! The std channels that carry lock grants and release notices.
use vstd::prelude::*;
use std::sync::mpsc::{Receiver, Sender};

verus! {

#[verifier::external_type_specification]
#[verifier::external_body]
#[verifier::reject_recursive_types(T)]
pub struct ExSender<T>(Sender<T>);

#[verifier::external_type_specification]
#[verifier::external_body]
#[verifier::reject_recursive_types(T)]
pub struct ExReceiver<T>(Receiver<T>);

/// Relies on `std::sync::mpsc::channel`: a connected sender and receiver.
#[verifier::external_body]
pub fn release_channel() -> (Sender<u64>, Receiver<u64>) {
    std::sync::mpsc::channel()
}

/// Relies on `Sender::clone`: another sender into the same channel.
#[verifier::external_body]
pub fn clone_sender<T>(s: &Sender<T>) -> Sender<T> {
    s.clone()
}

/// Relies on `Sender::send`, which never blocks; a value whose receiver is
/// gone is dropped.
#[verifier::external_body]
pub fn send_on<T>(s: &Sender<T>, v: T)
    opens_invariants none
    no_unwind
{
    let _ = s.send(v);
}

/// Relies on `Receiver::try_iter`: the messages queued so far, without
/// waiting for more.
#[verifier::external_body]
pub fn drain_queued(r: &Receiver<u64>) -> Vec<u64> {
    r.try_iter().collect()
}

} // verus!
