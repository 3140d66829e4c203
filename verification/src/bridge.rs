//! The event bridge: the per-connection task that drains the wire event
//! source and materializes domain messages. Each poll of the event
//! source has one of four outcomes; only an inbound publish packet adds
//! a message to the channel, and each inbound publish adds exactly one.

use crate::channel::MessageChannel;
use crate::message::MqttMessage;
use crate::valid_qos;
use vstd::prelude::*;

verus! {

/// One outcome of waiting on the wire event source with a bounded
/// timeout.
pub enum WireEvent {
    /// An inbound publish packet, already decoded to plain values.
    IncomingPublish { topic: String, payload: Vec<u8>, qos: u8, retain: bool },
    /// Any other inbound packet; observed for diagnostics only.
    IncomingOther,
    /// An outbound packet echo; observed for diagnostics only.
    Outgoing,
    /// The bounded wait elapsed with no event; not an error.
    TimedOut,
    /// A hard transport error; the text describes it.
    Failed(String),
}

/// The view of an optional string.
pub open spec fn opt_text(o: Option<String>) -> Option<Seq<char>> {
    match o {
        Some(s) => Some(s@),
        None => None,
    }
}

/// The new queue extends the old one by exactly one well-formed message
/// holding exactly these fields.
pub open spec fn queue_extended_by(
    q0: Seq<MqttMessage>,
    q1: Seq<MqttMessage>,
    topic: Seq<char>,
    payload: Seq<u8>,
    qos: u8,
    retain: bool,
    client: Option<Seq<char>>,
) -> bool {
    &&& q1.len() == q0.len() + 1
    &&& q1.subrange(0, q0.len() as int) == q0
    &&& q1.last().wf()
    &&& q1.last().topic@ == topic
    &&& q1.last().payload@ == payload
    &&& q1.last().qos == qos
    &&& q1.last().retain == retain
    &&& opt_text(q1.last().client_id) == client
}

/// The background task's decision logic, one connection each: it turns
/// inbound publish packets into domain messages and enqueues them, in
/// wire arrival order, on the channel it is handed.
pub struct EventBridge {
    /// The id of the connection this bridge serves, attached to each
    /// message it materializes.
    pub client_id: Option<String>,
}

impl EventBridge {
    /// A bridge attributing its messages to the given client.
    pub fn new(client_id: Option<String>) -> (b: EventBridge)
        ensures
            b.client_id == client_id,
    {
        EventBridge { client_id }
    }

    /// Materializes one domain message from an inbound publish packet and
    /// enqueues it: exactly one message, with exactly the packet's topic
    /// and payload bytes. A packet with an empty topic or an impossible
    /// level is malformed and dropped; if the channel's receiver is gone
    /// the message is dropped and the loop goes on.
    pub fn on_publish(&self, chan: &mut MessageChannel, topic: String, payload: Vec<u8>, qos: u8,
        retain: bool) -> (delivered: bool)
        ensures
            delivered <==> (topic@.len() > 0 && valid_qos(qos) && old(chan).open),
            !delivered ==> *final(chan) == *old(chan),
            delivered ==> final(chan).open,
            delivered ==> queue_extended_by(old(chan).queue@, final(chan).queue@, topic@, payload@,
                qos, retain, opt_text(self.client_id)),
    {
        if topic.as_str().is_empty() {
            return false;
        }
        if !(qos == 0 || qos == 1 || qos == 2) {
            return false;
        }
        if !chan.is_open() {
            return false;
        }
        let mut message = MqttMessage::new(topic, payload, qos).with_retain(retain);
        if let Some(id) = &self.client_id {
            message = message.with_client_id(id.clone());
        }
        let ghost q0 = chan.queue@;
        let _ = chan.send(message);
        proof {
            assert(chan.queue@.subrange(0, q0.len() as int) =~= q0);
        }
        true
    }

    /// One iteration of the poll loop: handles the event and says whether
    /// the loop goes on. A timeout or any non-publish event changes
    /// nothing; a hard transport error stops the loop; an inbound publish
    /// is delivered as `on_publish` describes.
    pub fn bridge_step(&self, chan: &mut MessageChannel, event: WireEvent) -> (keep_going: bool)
        ensures
            !(event is IncomingPublish) ==> *final(chan) == *old(chan),
            keep_going <==> !(event is Failed),
            (event matches WireEvent::IncomingPublish { topic, payload, qos, retain }
                && topic@.len() > 0 && valid_qos(qos) && old(chan).open) ==> queue_extended_by(
                old(chan).queue@, final(chan).queue@, event->IncomingPublish_topic@,
                event->IncomingPublish_payload@, event->IncomingPublish_qos,
                event->IncomingPublish_retain, opt_text(self.client_id)),
            (event matches WireEvent::IncomingPublish { topic, payload, qos, retain } && !(
            topic@.len() > 0 && valid_qos(qos) && old(chan).open)) ==> *final(chan) == *old(chan),
    {
        match event {
            WireEvent::IncomingPublish { topic, payload, qos, retain } => {
                let _ = self.on_publish(chan, topic, payload, qos, retain);
                true
            },
            WireEvent::IncomingOther => true,
            WireEvent::Outgoing => true,
            WireEvent::TimedOut => true,
            WireEvent::Failed(_) => false,
        }
    }
}

/// Publishing while connected yields exactly one domain message on the
/// bridge's channel, whose topic and payload equal the published topic
/// and payload byte for byte: after the bridge handles the matching
/// inbound publish, the queue has grown by exactly that one message and
/// nothing already queued has moved.
pub proof fn lemma_publish_delivers_exactly_once(q0: Seq<MqttMessage>, q1: Seq<MqttMessage>,
    topic: Seq<char>, payload: Seq<u8>, qos: u8, retain: bool, client: Option<Seq<char>>)
    requires
        queue_extended_by(q0, q1, topic, payload, qos, retain, client),
    ensures
        q1 =~= q0.push(q1.last()),
        q1[q0.len() as int].topic@ == topic,
        q1[q0.len() as int].payload@ == payload,
        forall|i: int| 0 <= i < q0.len() ==> q1[i] == q0[i],
{
    assert forall|i: int| 0 <= i < q0.len() implies q1[i] == q0[i] by {
        assert(q1.subrange(0, q0.len() as int)[i] == q1[i]);
    }
}

/// Subscribing is idempotent at this layer: a subscription request never
/// touches the channel (the manager's `subscribe` cannot reach it), so
/// however often a filter was subscribed, one inbound publish event still
/// yields exactly one message on the channel, never more.
pub proof fn lemma_duplicate_subscription_no_duplicate_delivery(q0: Seq<MqttMessage>, q1: Seq<
    MqttMessage>, topic: Seq<char>, payload: Seq<u8>, qos: u8, retain: bool, client: Option<
    Seq<char>>)
    requires
        // what one inbound publish event leaves behind, after any number
        // of subscribe calls, which leave every channel unchanged
        queue_extended_by(q0, q1, topic, payload, qos, retain, client),
    ensures
        q1.len() - q0.len() == 1,
        q1 =~= q0.push(q1.last()),
{
    lemma_publish_delivers_exactly_once(q0, q1, topic, payload, qos, retain, client);
}

/// Per-connection ordering: handling two inbound publishes in wire
/// arrival order enqueues the two corresponding messages in that same
/// relative order, after everything already queued.
pub proof fn lemma_bridge_preserves_order(q0: Seq<MqttMessage>, q1: Seq<MqttMessage>, q2: Seq<
    MqttMessage>, t1: Seq<char>, p1: Seq<u8>, t2: Seq<char>, p2: Seq<u8>, qos: u8, retain: bool,
    client: Option<Seq<char>>)
    requires
        queue_extended_by(q0, q1, t1, p1, qos, retain, client),
        queue_extended_by(q1, q2, t2, p2, qos, retain, client),
    ensures
        q2 =~= q0.push(q1.last()).push(q2.last()),
        q2[q0.len() as int].topic@ == t1,
        q2[q0.len() as int].payload@ == p1,
        q2[q0.len() as int + 1].topic@ == t2,
        q2[q0.len() as int + 1].payload@ == p2,
{
    lemma_publish_delivers_exactly_once(q0, q1, t1, p1, qos, retain, client);
    lemma_publish_delivers_exactly_once(q1, q2, t2, p2, qos, retain, client);
    assert(q2[q0.len() as int] == q2.subrange(0, q1.len() as int)[q0.len() as int]);
}

} // verus!
