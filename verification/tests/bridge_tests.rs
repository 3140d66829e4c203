use mqtt_bridge::bridge::{EventBridge, WireEvent};
use mqtt_bridge::channel::{MessageChannel, MessageHandler};
use mqtt_bridge::client::MqttClient;
use mqtt_bridge::config::ClientConfig;
use mqtt_bridge::errors::ConnectionError;
use mqtt_bridge::message::MqttMessage;

fn test_config() -> ClientConfig {
    ClientConfig::new(
        "client-under-test".to_string(),
        "localhost".to_string(),
        1883,
        60,
    )
}

#[test]
fn disconnect_on_never_connected_manager_is_not_connected_error() {
    let mut manager = MqttClient::new(test_config());
    match manager.disconnect() {
        Err(ConnectionError::NotConnected) => {}
        _ => panic!("expected NotConnected"),
    }
}

#[test]
fn publish_before_connect_reports_client_not_connected() {
    let manager = MqttClient::new(test_config());
    let topic = "test/topic".to_string();
    let payload: Vec<u8> = b"x".to_vec();
    match manager.publish(&topic, &payload, 0, false) {
        Err(e) => assert_eq!(e.message(), "Client not connected"),
        Ok(()) => panic!("expected a failure"),
    }
}

#[test]
fn subscribe_and_unsubscribe_before_connect_fail() {
    let manager = MqttClient::new(test_config());
    let topic = "test/topic".to_string();
    assert!(matches!(
        manager.subscribe(&topic, 1),
        Err(ConnectionError::NotConnected)
    ));
    assert!(matches!(
        manager.unsubscribe(&topic),
        Err(ConnectionError::NotConnected)
    ));
}

#[test]
fn client_info_reports_identity_and_address() {
    let manager = MqttClient::new(test_config());
    let info = manager.get_client_info();
    assert_eq!(info.client_id, "client-under-test");
    assert_eq!(info.broker_url, "localhost:1883");
    assert!(!info.is_connected);
}

#[test]
fn connect_then_disconnect_moves_the_state_machine() {
    let mut manager = MqttClient::new(test_config());
    assert!(!manager.is_connected());
    let (_event_loop, bridge) = manager.connect();
    assert!(manager.is_connected());
    assert_eq!(bridge.client_id.as_deref(), Some("client-under-test"));
    assert!(manager.get_client_info().is_connected);
    manager.disconnect().unwrap();
    assert!(!manager.is_connected());
}

#[test]
fn bridge_delivers_exactly_one_message_per_publish() {
    // the scenario: a connected manager, a subscription on test/topic,
    // one publish of the UTF-8 bytes of a small JSON body; the bridge
    // yields exactly one message with that topic and payload
    let bridge = EventBridge::new(Some("c1".to_string()));
    let mut chan = MessageChannel::new();
    let payload = b"{\"hello\":\"world\"}".to_vec();
    let delivered = bridge.on_publish(&mut chan, "test/topic".to_string(), payload.clone(), 1, false);
    assert!(delivered);
    assert_eq!(chan.len(), 1);
    let got = chan.recv().unwrap();
    assert_eq!(got.topic, "test/topic");
    assert_eq!(got.payload, payload);
    assert_eq!(got.qos, 1);
    assert!(!got.retain);
    assert_eq!(got.client_id.as_deref(), Some("c1"));
    assert!(chan.recv().is_none());
}

#[test]
fn duplicate_subscription_does_not_duplicate_delivery() {
    // subscribing is a transport request and never touches the channel:
    // after two identical subscribe calls one wire publish still yields
    // exactly one message
    let mut manager = MqttClient::new(test_config());
    let (_event_loop, bridge) = manager.connect();
    let topic = "test/topic".to_string();
    let _ = manager.subscribe(&topic, 1);
    let _ = manager.subscribe(&topic, 1);
    let mut chan = MessageChannel::new();
    let delivered = bridge.on_publish(&mut chan, "test/topic".to_string(), b"payload".to_vec(), 1, false);
    assert!(delivered);
    assert_eq!(chan.len(), 1);
}

#[test]
fn bridge_preserves_publish_order() {
    let bridge = EventBridge::new(None);
    let mut chan = MessageChannel::new();
    for k in 0..5u8 {
        let delivered = bridge.on_publish(&mut chan, "t".to_string(), vec![k], 0, false);
        assert!(delivered);
    }
    for k in 0..5u8 {
        let got = chan.recv().unwrap();
        assert_eq!(got.payload, vec![k]);
    }
    assert!(chan.recv().is_none());
}

#[test]
fn bridge_step_classifies_events() {
    let bridge = EventBridge::new(None);
    let mut chan = MessageChannel::new();
    assert!(bridge.bridge_step(&mut chan, WireEvent::TimedOut));
    assert!(bridge.bridge_step(&mut chan, WireEvent::IncomingOther));
    assert!(bridge.bridge_step(&mut chan, WireEvent::Outgoing));
    assert_eq!(chan.len(), 0);
    assert!(bridge.bridge_step(
        &mut chan,
        WireEvent::IncomingPublish {
            topic: "a".to_string(),
            payload: vec![1],
            qos: 0,
            retain: true,
        }
    ));
    assert_eq!(chan.len(), 1);
    assert!(!bridge.bridge_step(&mut chan, WireEvent::Failed("gone".to_string())));
    assert_eq!(chan.len(), 1);
}

#[test]
fn closed_channel_drops_the_message_and_keeps_going() {
    let bridge = EventBridge::new(None);
    let mut chan = MessageChannel::new();
    chan.close();
    let delivered = bridge.on_publish(&mut chan, "t".to_string(), vec![1], 0, false);
    assert!(!delivered);
    assert_eq!(chan.len(), 0);
    assert!(!chan.is_open());
}

#[test]
fn malformed_publish_is_dropped() {
    let bridge = EventBridge::new(None);
    let mut chan = MessageChannel::new();
    assert!(!bridge.on_publish(&mut chan, "".to_string(), vec![1], 0, false));
    assert!(!bridge.on_publish(&mut chan, "t".to_string(), vec![1], 7, false));
    assert_eq!(chan.len(), 0);
}

#[test]
fn message_handler_drains_in_order() {
    let bridge = EventBridge::new(None);
    let mut chan = MessageChannel::new();
    bridge.on_publish(&mut chan, "one".to_string(), vec![1], 0, false);
    bridge.on_publish(&mut chan, "two".to_string(), vec![2], 0, false);
    let mut handler = MessageHandler::new(chan);
    assert_eq!(handler.next_message().unwrap().topic, "one");
    assert_eq!(handler.next_message().unwrap().topic, "two");
    assert!(handler.next_message().is_none());
}

#[test]
fn message_constructors_keep_their_fields() {
    let m = MqttMessage::new("topic/a".to_string(), vec![9, 8], 2);
    assert_eq!(m.topic, "topic/a");
    assert_eq!(m.payload, vec![9, 8]);
    assert_eq!(m.qos, 2);
    assert!(!m.retain);
    assert!(m.client_id.is_none());
    assert_eq!(m.id.len(), 36);
    let m = m.with_retain(true).with_client_id("c9".to_string());
    assert!(m.retain);
    assert_eq!(m.client_id.as_deref(), Some("c9"));
}

#[test]
fn payload_decodes_as_text() {
    let m = MqttMessage::new("t".to_string(), "hello 世界".as_bytes().to_vec(), 0);
    assert_eq!(m.payload_as_string(), "hello 世界");
}

#[test]
fn transport_refusal_surfaces_as_transport_error() {
    // a publish topic holding a wildcard is refused by the transport
    // itself; the manager reports it as a transport failure, not a
    // connection-state failure
    let mut manager = MqttClient::new(test_config());
    let (_event_loop, _bridge) = manager.connect();
    let bad_topic = "rooms/+/temp".to_string();
    match manager.publish(&bad_topic, &b"x".to_vec(), 0, false) {
        Err(ConnectionError::Transport(_)) => {}
        other => panic!("expected a transport refusal, got {:?}", other.is_ok()),
    }
}
