//! The client façade: each call becomes one command on the broker's channel.
use crate::broker::Broker;
use crate::error::PubSubError;
use crate::operation::Operation;
use std::sync::mpsc::{Receiver, SendError, Sender};
use vstd::prelude::*;

verus! {

/// Whether `c` is a lower-case hexadecimal digit.
pub open spec fn is_lower_hex(c: char) -> bool {
    ('0' <= c && c <= '9') || ('a' <= c && c <= 'f')
}

/// Whether `s` is the hyphenated lower-case text of a version-4, RFC 4122
/// UUID: 8-4-4-4-12 hex digits, version digit `4`, variant digit one of
/// `8`, `9`, `a`, `b`.
pub open spec fn is_uuid_v4_text(s: Seq<char>) -> bool {
    &&& s.len() == 36
    &&& forall|i: int|
        0 <= i < 36 ==> if i == 8 || i == 13 || i == 18 || i == 23 {
            s[i] == '-'
        } else {
            is_lower_hex(#[trigger] s[i])
        }
    &&& s[14] == '4'
    &&& s[19] == '8' || s[19] == '9' || s[19] == 'a' || s[19] == 'b'
}

/// Relies on uuid's `Uuid::new_v4` and its `Display` impl: a random
/// version-4 UUID, written hyphenated in lower case.
#[verifier::external_body]
fn new_subscriber_id() -> (r: String)
    ensures
        is_uuid_v4_text(r@),
{
    uuid::Uuid::new_v4().to_string()
}

/// What a façade call returns once the broker's channel has answered: `Ok`
/// exactly when the command was accepted, else the broker-unreachable error.
pub fn outcome(sent: Result<(), SendError<Operation>>) -> (r: Result<(), PubSubError>)
    ensures
        r is Ok <==> sent is Ok,
        r matches Err(e) ==> e.message_view() == "Failed to send operation to broker"@
            && e.cause_view() == "sending on a closed channel"@,
{
    match sent {
        Ok(()) => Ok(()),
        Err(e) => Err(PubSubError::from_send_error(e)),
    }
}

/// The command that registers `id`, delivering through `sender`.
pub fn subscribe_command(id: String, sender: Sender<String>) -> (r: Operation)
    ensures
        r matches Operation::Sub { id: i, sender: s } && i@ == id@ && s == sender,
{
    Operation::Sub { id, sender }
}

/// The command that hands `msg` to every subscriber.
pub fn publish_command(msg: &str) -> (r: Operation)
    ensures
        r matches Operation::Pub(m) && m@ == msg@,
{
    Operation::Pub(msg.to_owned())
}

/// The command that removes `id`.
pub fn unsubscribe_command(id: &str) -> (r: Operation)
    ensures
        r matches Operation::Unsub(i) && i@ == id@,
{
    Operation::Unsub(id.to_owned())
}

/// The command that drops every subscriber and stops the broker.
pub fn close_command() -> (r: Operation)
    ensures
        r is Close,
{
    Operation::Close
}

/// The producing end of a broker's command channel.
pub struct PubSub {
    sender: Sender<Operation>,
}

impl PubSub {
    /// A façade and the dormant broker that its commands go to; the caller
    /// hosts the broker (see `Broker::step`).
    pub fn new() -> (r: (PubSub, Broker))
        ensures
            r.1.wf(),
            r.1.ids() == Seq::<Seq<char>>::empty(),
            r.1.entries() == Seq::<(Seq<char>, Sender<String>)>::empty(),
            r.1.delivered() == Seq::<(Seq<char>, Seq<char>)>::empty(),
    {
        let (broker, sender) = Broker::new();
        (PubSub { sender }, broker)
    }

    /// Registers a new subscriber under a fresh UUID by sending
    /// `subscribe_command` with that id and a new channel's sender. On success
    /// returns the id and the receiving end of the subscriber's channel; if the
    /// broker is unreachable, the channel is dropped and the error returned.
    pub fn subscribe(&self) -> (r: Result<(String, Receiver<String>), PubSubError>)
        ensures
            r matches Ok((id, _)) ==> is_uuid_v4_text(id@),
            r matches Err(e) ==> e.message_view() == "Failed to send operation to broker"@
                && e.cause_view() == "sending on a closed channel"@,
    {
        let id = new_subscriber_id();
        let (sender, receiver) = std::sync::mpsc::channel();
        let sent = self.sender.send(subscribe_command(id.clone(), sender));
        match outcome(sent) {
            Ok(()) => Ok((id, receiver)),
            Err(e) => Err(e),
        }
    }

    /// Asks the broker to hand `msg` to every subscriber by sending
    /// `publish_command(msg)`; returns once the command is accepted.
    pub fn publish(&self, msg: &str) -> (r: Result<(), PubSubError>)
        ensures
            r matches Err(e) ==> e.message_view() == "Failed to send operation to broker"@
                && e.cause_view() == "sending on a closed channel"@,
    {
        outcome(self.sender.send(publish_command(msg)))
    }

    /// Asks the broker to remove `id` by sending `unsubscribe_command(id)`; an
    /// id that was never registered is no error.
    pub fn unsubscribe(&self, id: &str) -> (r: Result<(), PubSubError>)
        ensures
            r matches Err(e) ==> e.message_view() == "Failed to send operation to broker"@
                && e.cause_view() == "sending on a closed channel"@,
    {
        outcome(self.sender.send(unsubscribe_command(id)))
    }

    /// Asks the broker to drop every subscriber and stop by sending
    /// `close_command()`.
    pub fn close(&self) -> (r: Result<(), PubSubError>)
        ensures
            r matches Err(e) ==> e.message_view() == "Failed to send operation to broker"@
                && e.cause_view() == "sending on a closed channel"@,
    {
        outcome(self.sender.send(close_command()))
    }
}

} // verus!
