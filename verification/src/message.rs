//! The domain message: this layer's representation of one MQTT message,
//! independent of its wire encoding. Created by a publish call or by the
//! event bridge from an inbound wire publish; never mutated afterwards.

use crate::valid_qos;
use vstd::prelude::*;

verus! {

/// One message as this layer sees it.
#[derive(Debug, Clone)]
pub struct MqttMessage {
    /// Opaque unique token for this message.
    pub id: String,
    /// The topic the message was published to; never empty.
    pub topic: String,
    /// The raw payload bytes.
    pub payload: Vec<u8>,
    /// Quality-of-service level, one of 0, 1, 2.
    pub qos: u8,
    /// Whether the broker should keep the message as the topic's last
    /// known value.
    pub retain: bool,
    /// Creation or arrival time, in seconds since the epoch.
    pub timestamp: u64,
    /// The client the message originated from, where known.
    pub client_id: Option<String>,
}

impl MqttMessage {
    /// The invariant every domain message satisfies.
    pub open spec fn wf(&self) -> bool {
        self.topic@.len() > 0 && valid_qos(self.qos)
    }

    /// A fresh message with a new unique id, stamped with the current
    /// time, not retained and without an originating client.
    pub fn new(topic: String, payload: Vec<u8>, qos: u8) -> (m: MqttMessage)
        requires
            topic@.len() > 0,
            valid_qos(qos),
        ensures
            m.wf(),
            m.topic@ == topic@,
            m.payload@ == payload@,
            m.qos == qos,
            !m.retain,
            m.client_id is None,
    {
        let id = fresh_message_id();
        let now = now_epoch_seconds();
        let timestamp: u64 = if now < 0 {
            0
        } else {
            now as u64
        };
        MqttMessage { id, topic, payload, qos, retain: false, timestamp, client_id: None }
    }

    /// The same message, attributed to the given client.
    pub fn with_client_id(self, client_id: String) -> (m: MqttMessage)
        ensures
            m.id@ == self.id@,
            m.topic@ == self.topic@,
            m.payload@ == self.payload@,
            m.qos == self.qos,
            m.retain == self.retain,
            m.timestamp == self.timestamp,
            m.client_id matches Some(c) && c@ == client_id@,
    {
        MqttMessage { client_id: Some(client_id), ..self }
    }

    /// The same message with the retain flag set as given.
    pub fn with_retain(self, retain: bool) -> (m: MqttMessage)
        ensures
            m.id@ == self.id@,
            m.topic@ == self.topic@,
            m.payload@ == self.payload@,
            m.qos == self.qos,
            m.retain == retain,
            m.timestamp == self.timestamp,
            m.client_id == self.client_id,
    {
        MqttMessage { retain, ..self }
    }

    /// The payload decoded as text, with invalid sequences replaced.
    pub fn payload_as_string(&self) -> (r: String)
        ensures
            r@ == utf8_lossy(self.payload@),
    {
        bytes_to_string_lossy(&self.payload)
    }
}

/// What `String::from_utf8_lossy` decodes a byte sequence to; a function
/// of the bytes alone.
pub uninterp spec fn utf8_lossy(bytes: Seq<u8>) -> Seq<char>;

/// Relies on `String::from_utf8_lossy`: decodes bytes as UTF-8, replacing
/// invalid sequences; the result depends on the bytes alone, and an empty
/// input decodes to an empty string.
#[verifier::external_body]
pub fn bytes_to_string_lossy(b: &Vec<u8>) -> (r: String)
    ensures
        r@ == utf8_lossy(b@),
        b@.len() == 0 ==> r@.len() == 0,
{
    String::from_utf8_lossy(b).to_string()
}

/// Relies on `uuid::Uuid::new_v4` to draw a fresh random identifier; its
/// hyphenated text form is 36 characters.
#[verifier::external_body]
pub fn fresh_message_id() -> (r: String)
    ensures
        r@.len() == 36,
{
    uuid::Uuid::new_v4().to_string()
}

/// Relies on `chrono::Utc::now` and `chrono::DateTime::timestamp` to read
/// the current time as seconds since the epoch; nothing is assumed of the
/// value.
#[verifier::external_body]
pub fn now_epoch_seconds() -> i64 {
    chrono::Utc::now().timestamp()
}

} // verus!
