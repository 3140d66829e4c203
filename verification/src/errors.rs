//! Error taxonomy of the connection layer: failures of operations on a
//! disconnected handle, transport-level failures surfaced by the client,
//! and failures of the embedded-broker supervisor.

use vstd::prelude::*;
use vstd::string::*;

verus! {

/// A failure of a client operation: either the handle is not connected,
/// or the transport refused the request.
#[derive(Debug, Clone)]
pub enum ConnectionError {
    /// The operation needs a connected handle and none exists.
    NotConnected,
    /// The transport reported a failure; the text describes it.
    Transport(String),
}

impl ConnectionError {
    /// A human-readable description of the failure.
    pub fn message(&self) -> (r: String)
        ensures
            self is NotConnected ==> r@ == "Client not connected"@,
            self matches ConnectionError::Transport(t) ==> r@ == t@,
    {
        match self {
            ConnectionError::NotConnected => String::from_str("Client not connected"),
            ConnectionError::Transport(t) => t.clone(),
        }
    }
}

/// A failure of the embedded-broker supervisor.
#[derive(Debug, Clone)]
pub enum BrokerError {
    /// `start` was called while the supervisor was already running.
    AlreadyRunning,
}

impl BrokerError {
    /// A human-readable description of the failure.
    pub fn message(&self) -> (r: String)
        ensures
            self is AlreadyRunning ==> r@ == "Broker already running"@,
    {
        match self {
            BrokerError::AlreadyRunning => String::from_str("Broker already running"),
        }
    }
}

} // verus!
