//! An MQTT connection/session bridge: a client manager with a verified
//! connection state machine, an event bridge that turns inbound wire
//! publishes into domain messages, an ordered hand-off channel, an
//! embedded-broker supervisor with client bookkeeping, and the message
//! envelope layer with its wire encoding.

pub mod api;
pub mod bridge;
pub mod broker;
pub mod channel;
pub mod client;
pub mod config;
pub mod errors;
pub mod json;
pub mod message;
pub mod models;
pub mod ollama;
pub mod text;
pub mod v0;
pub mod version;
pub mod wire;

use vstd::prelude::*;

verus! {

/// The quality-of-service levels this layer accepts.
pub open spec fn valid_qos(qos: u8) -> bool {
    qos == 0 || qos == 1 || qos == 2
}

} // verus!
