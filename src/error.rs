//! The error that the façade returns when the broker cannot be reached.
use crate::operation::Operation;
use std::sync::mpsc::SendError;
use vstd::prelude::*;

verus! {

/// A failure at the façade's boundary: a human-readable message and a
/// description of the cause.
#[derive(Debug)]
pub struct PubSubError {
    message: String,
    cause: String,
}

/// Relies on the `Display` impl of std's `SendError`, which writes the fixed
/// text "sending on a closed channel".
#[verifier::external_body]
fn send_error_text(e: &SendError<Operation>) -> (r: String)
    ensures
        r@ == "sending on a closed channel"@,
{
    e.to_string()
}

impl PubSubError {
    pub closed spec fn message_view(&self) -> Seq<char> {
        self.message@
    }

    pub closed spec fn cause_view(&self) -> Seq<char> {
        self.cause@
    }

    /// An error with the given message and cause.
    pub fn new(message: String, cause: String) -> (r: PubSubError)
        ensures
            r.message_view() == message@,
            r.cause_view() == cause@,
    {
        PubSubError { message, cause }
    }

    /// The error for a command that the broker's channel refused: the broker
    /// is unreachable.
    pub fn from_send_error(e: SendError<Operation>) -> (r: PubSubError)
        ensures
            r.message_view() == "Failed to send operation to broker"@,
            r.cause_view() == "sending on a closed channel"@,
    {
        let cause = send_error_text(&e);
        PubSubError { message: "Failed to send operation to broker".to_owned(), cause }
    }

    /// The message.
    pub fn message(&self) -> (r: &str)
        ensures
            r@ == self.message_view(),
    {
        self.message.as_str()
    }

    /// The description of the cause.
    pub fn cause(&self) -> (r: &str)
        ensures
            r@ == self.cause_view(),
    {
        self.cause.as_str()
    }
}

} // verus!
