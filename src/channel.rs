//! The std channel primitive that carries commands to the broker and payloads
//! to subscribers.
use std::sync::mpsc::{Receiver, RecvError, SendError, Sender};
use vstd::prelude::*;

verus! {

#[verifier::external_type_specification]
#[verifier::external_body]
#[verifier::reject_recursive_types(T)]
pub struct ExSender<T>(Sender<T>);

#[verifier::external_type_specification]
#[verifier::external_body]
#[verifier::reject_recursive_types(T)]
pub struct ExReceiver<T>(Receiver<T>);

#[verifier::external_type_specification]
#[verifier::external_body]
#[verifier::reject_recursive_types(T)]
pub struct ExSendError<T>(SendError<T>);

#[verifier::external_type_specification]
#[verifier::external_body]
pub struct ExRecvError(RecvError);

/// Relies on std::sync::mpsc::channel: a fresh unbounded channel, its two
/// ends returned together.
pub assume_specification<T>[ std::sync::mpsc::channel::<T> ]() -> (Sender<T>, Receiver<T>);

/// Relies on Sender::send: it never blocks, and whether the value is accepted
/// depends on whether the receiving end is still alive.
pub assume_specification<T>[ Sender::<T>::send ](s: &Sender<T>, t: T) -> Result<(), SendError<T>>;

/// Relies on Receiver::recv: it blocks until a value or the loss of every
/// sender; which of the two comes is up to other threads.
pub assume_specification<T>[ Receiver::<T>::recv ](r: &Receiver<T>) -> Result<T, RecvError>;

} // verus!
