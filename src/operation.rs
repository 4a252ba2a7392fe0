//! The commands that the façade hands to the broker.
use std::sync::mpsc::Sender;
use vstd::prelude::*;

verus! {

/// One command for the broker.
#[derive(Debug)]
pub enum Operation {
    /// Register `id`, delivering through `sender`.
    Sub { id: String, sender: Sender<String> },
    /// Remove `id` if it is registered.
    Unsub(String),
    /// Hand the payload to every registered subscriber.
    Pub(String),
    /// Drop every subscriber and stop.
    Close,
}

} // verus!
