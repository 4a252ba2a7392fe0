//! An in-process publish/subscribe bus: a broker that owns the subscriber
//! registry and a façade that turns method calls into an ordered command stream.
use vstd::prelude::*;

pub mod broker;
pub mod channel;
pub mod delivery;
pub mod error;
pub mod facade;
pub mod operation;

pub use broker::Broker;
pub use error::PubSubError;
pub use facade::PubSub;
pub use operation::Operation;

verus! {

} // verus!

