//! The connection manager: owns the transport handle and its lifecycle.
//! Connect hands back the transport's event source together with the one
//! event bridge for this connection; publish, subscribe and unsubscribe
//! require a connected handle and fail with `NotConnected` otherwise.
//!
//! A successful publish means the transport accepted the write into its
//! outbound buffer; it is not an acknowledgment of broker receipt, even
//! at quality-of-service 1 or 2.

use crate::bridge::EventBridge;
use crate::config::ClientConfig;
use crate::errors::ConnectionError;
use crate::text::{chars_to_string, push_decimal_u64, string_to_chars, dec_rep};
use crate::valid_qos;
use vstd::prelude::*;

verus! {

#[verifier::external_type_specification]
#[verifier::external_body]
pub struct ExAsyncClient(rumqttc::AsyncClient);

#[verifier::external_type_specification]
#[verifier::external_body]
pub struct ExEventLoop(rumqttc::EventLoop);

#[verifier::external_type_specification]
#[verifier::external_body]
pub struct ExMqttOptions(rumqttc::MqttOptions);

#[verifier::external_type_specification]
#[verifier::external_body]
pub struct ExClientError(rumqttc::ClientError);

/// Relies on `rumqttc::MqttOptions::new`, `set_keep_alive`,
/// `set_clean_session` and `set_credentials` to assemble the transport
/// options from plain values. The options are assembled in one step
/// because `set_clean_session` panics when the session is kept while
/// the client id inside the options is empty: only here, where the id
/// is still a plain value, can the precondition rule that out.
/// `set_keep_alive` accepts any whole number of seconds.
#[verifier::external_body]
fn make_mqtt_options(
    client_id: &String,
    host: &String,
    port: u16,
    keep_alive_secs: u16,
    clean_session: bool,
    username: &Option<String>,
    password: &Option<String>,
) -> rumqttc::MqttOptions
    requires
        clean_session || client_id@.len() > 0,
{
    let mut options = rumqttc::MqttOptions::new(client_id.clone(), host.clone(), port);
    options.set_keep_alive(std::time::Duration::from_secs(keep_alive_secs as u64));
    options.set_clean_session(clean_session);
    if let Some(user) = username {
        if let Some(pass) = password {
            options.set_credentials(user.clone(), pass.clone());
        }
    }
    options
}

/// Relies on `rumqttc::AsyncClient::new`: creates the client handle and
/// the event loop that must be polled to move the connection forward.
#[verifier::external_body]
fn make_transport(options: rumqttc::MqttOptions, cap: usize) -> (rumqttc::AsyncClient,
    rumqttc::EventLoop) {
    rumqttc::AsyncClient::new(options, cap)
}

/// Relies on `rumqttc::AsyncClient::try_publish`, with `rumqttc::qos`
/// converting the level: queues one publish of exactly these bytes on the
/// transport's request channel, or reports why the transport refused it.
#[verifier::external_body]
fn transport_publish(client: &rumqttc::AsyncClient, topic: &String, payload: &Vec<u8>, qos: u8,
    retain: bool) -> Result<(), rumqttc::ClientError>
    requires
        valid_qos(qos),
{
    let level = rumqttc::qos(qos).unwrap_or(rumqttc::QoS::AtMostOnce);
    client.try_publish(topic.as_str(), level, retain, payload.clone())
}

/// Relies on `rumqttc::AsyncClient::try_subscribe`, with `rumqttc::qos`
/// converting the level: queues one subscription request for the filter.
#[verifier::external_body]
fn transport_subscribe(client: &rumqttc::AsyncClient, topic: &String, qos: u8) -> Result<(),
    rumqttc::ClientError>
    requires
        valid_qos(qos),
{
    let level = rumqttc::qos(qos).unwrap_or(rumqttc::QoS::AtMostOnce);
    client.try_subscribe(topic.as_str(), level)
}

/// Relies on `rumqttc::AsyncClient::try_unsubscribe`: queues one
/// unsubscribe request for the filter.
#[verifier::external_body]
fn transport_unsubscribe(client: &rumqttc::AsyncClient, topic: &String) -> Result<(),
    rumqttc::ClientError> {
    client.try_unsubscribe(topic.as_str())
}

/// Relies on `rumqttc::AsyncClient::try_disconnect`: queues a graceful
/// disconnect request.
#[verifier::external_body]
fn transport_disconnect(client: &rumqttc::AsyncClient) -> Result<(), rumqttc::ClientError> {
    client.try_disconnect()
}

/// Relies on the `Display` impl of `rumqttc::ClientError` for a
/// human-readable description of a transport refusal.
#[verifier::external_body]
fn transport_error_text(e: &rumqttc::ClientError) -> String {
    e.to_string()
}

/// A read-only snapshot of a client's identity and connection state.
#[derive(Debug, Clone)]
pub struct ClientInfo {
    pub client_id: String,
    pub broker_url: String,
    pub is_connected: bool,
}

/// The connection manager. The handle is either fully connected (a
/// transport handle is present) or fully disconnected (none is); the
/// state machine is `Disconnected -> Connected -> Disconnected`, moved by
/// `connect` and `disconnect`.
pub struct MqttClient {
    client: Option<rumqttc::AsyncClient>,
    is_connected: bool,
    config: ClientConfig,
}

impl MqttClient {
    /// Connected exactly when a transport handle is present: the illegal
    /// state "connected but handle missing" is unrepresentable to callers
    /// holding this invariant.
    pub closed spec fn wf(&self) -> bool {
        self.is_connected <==> self.client is Some
    }

    pub closed spec fn connected(&self) -> bool {
        self.is_connected
    }

    pub closed spec fn spec_config(&self) -> ClientConfig {
        self.config
    }

    /// A manager for the given configuration, initially disconnected.
    pub fn new(config: ClientConfig) -> (c: MqttClient)
        ensures
            c.wf(),
            !c.connected(),
            c.spec_config() == config,
    {
        MqttClient { client: None, is_connected: false, config }
    }

    /// Whether the handle is connected.
    pub fn is_connected(&self) -> (b: bool)
        ensures
            b == self.connected(),
    {
        self.is_connected
    }

    /// Establishes the transport with the configured parameters and
    /// credentials, marks the handle connected, and hands back the
    /// transport's event source together with the one event bridge for
    /// this connection. The transport defers connection failures to the
    /// first poll of the event source: this call itself always succeeds.
    pub fn connect(&mut self) -> (r: (rumqttc::EventLoop, EventBridge))
        requires
            old(self).wf(),
            old(self).spec_config().clean_session || old(self).spec_config().client_id@.len() > 0,
        ensures
            final(self).wf(),
            final(self).connected(),
            final(self).spec_config() == old(self).spec_config(),
            r.1.client_id matches Some(c) && c@ == old(self).spec_config().client_id@,
    {
        let options = make_mqtt_options(
            &self.config.client_id,
            &self.config.broker_host,
            self.config.broker_port,
            self.config.keep_alive,
            self.config.clean_session,
            &self.config.username,
            &self.config.password,
        );
        let (client, event_loop) = make_transport(options, 10);
        self.client = Some(client);
        self.is_connected = true;
        let bridge = EventBridge::new(Some(self.config.client_id.clone()));
        (event_loop, bridge)
    }

    /// Requests a graceful shutdown from the transport and clears the
    /// handle. Fails with `NotConnected` if no handle exists; the event
    /// bridge is not guaranteed to have terminated when this returns.
    pub fn disconnect(&mut self) -> (r: Result<(), ConnectionError>)
        requires
            old(self).wf(),
        ensures
            final(self).wf(),
            !final(self).connected(),
            final(self).spec_config() == old(self).spec_config(),
            !old(self).connected() <==> r matches Err(ConnectionError::NotConnected),
            old(self).connected() ==> r is Ok || r matches Err(ConnectionError::Transport(_)),
    {
        match &self.client {
            None => Err(ConnectionError::NotConnected),
            Some(client) => {
                let outcome = transport_disconnect(client);
                self.is_connected = false;
                self.client = None;
                match outcome {
                    Ok(()) => Ok(()),
                    Err(e) => Err(ConnectionError::Transport(transport_error_text(&e))),
                }
            },
        }
    }

    /// Forwards one publish of exactly these bytes to the transport.
    /// Fails with `NotConnected` if disconnected; when connected, success
    /// means the transport accepted the write, not that the broker
    /// received it.
    pub fn publish(&self, topic: &String, payload: &Vec<u8>, qos: u8, retain: bool) -> (r: Result<
        (),
        ConnectionError,
    >)
        requires
            self.wf(),
            valid_qos(qos),
        ensures
            !self.connected() <==> r matches Err(ConnectionError::NotConnected),
            self.connected() ==> r is Ok || r matches Err(ConnectionError::Transport(_)),
    {
        match &self.client {
            None => Err(ConnectionError::NotConnected),
            Some(client) => match transport_publish(client, topic, payload, qos, retain) {
                Ok(()) => Ok(()),
                Err(e) => Err(ConnectionError::Transport(transport_error_text(&e))),
            },
        }
    }

    /// Requests a subscription to the topic filter at the given level.
    /// Fails with `NotConnected` if disconnected. Its effect is visible
    /// only in which inbound publishes the event bridge will see.
    pub fn subscribe(&self, topic: &String, qos: u8) -> (r: Result<(), ConnectionError>)
        requires
            self.wf(),
            valid_qos(qos),
        ensures
            !self.connected() <==> r matches Err(ConnectionError::NotConnected),
            self.connected() ==> r is Ok || r matches Err(ConnectionError::Transport(_)),
    {
        match &self.client {
            None => Err(ConnectionError::NotConnected),
            Some(client) => match transport_subscribe(client, topic, qos) {
                Ok(()) => Ok(()),
                Err(e) => Err(ConnectionError::Transport(transport_error_text(&e))),
            },
        }
    }

    /// Requests removal of a subscription. Fails with `NotConnected` if
    /// disconnected.
    pub fn unsubscribe(&self, topic: &String) -> (r: Result<(), ConnectionError>)
        requires
            self.wf(),
        ensures
            !self.connected() <==> r matches Err(ConnectionError::NotConnected),
            self.connected() ==> r is Ok || r matches Err(ConnectionError::Transport(_)),
    {
        match &self.client {
            None => Err(ConnectionError::NotConnected),
            Some(client) => match transport_unsubscribe(client, topic) {
                Ok(()) => Ok(()),
                Err(e) => Err(ConnectionError::Transport(transport_error_text(&e))),
            },
        }
    }

    /// A snapshot of the client id, the broker address as `host:port`,
    /// and the connected flag. Never fails.
    pub fn get_client_info(&self) -> (info: ClientInfo)
        ensures
            info.client_id@ == self.spec_config().client_id@,
            info.broker_url@ == self.spec_config().broker_host@ + seq![':'] + dec_rep(
                self.spec_config().broker_port as nat,
            ),
            info.is_connected == self.connected(),
    {
        let mut chars = string_to_chars(self.config.broker_host.as_str());
        chars.push(':');
        push_decimal_u64(self.config.broker_port as u64, &mut chars);
        let broker_url = chars_to_string(&chars);
        proof {
            assert(broker_url@ =~= self.spec_config().broker_host@ + seq![':'] + dec_rep(
                self.spec_config().broker_port as nat,
            ));
        }
        ClientInfo {
            client_id: self.config.client_id.clone(),
            broker_url,
            is_connected: self.is_connected,
        }
    }
}

} // verus!
