use mqtt_bridge::broker::MqttBroker;
use mqtt_bridge::config::MqttConfig;

#[test]
fn stats_report_two_clients_and_two_subscriptions() {
    // the scenario: a running supervisor, two synthetic clients with
    // distinct ids, each subscribed to a disjoint topic, one publish per
    // topic
    let mut broker = MqttBroker::new(MqttConfig::new("127.0.0.1".to_string(), 1883));
    broker.start().unwrap();
    broker.add_client("client-a".to_string(), vec!["topic/a".to_string()]);
    broker.add_client("client-b".to_string(), vec!["topic/b".to_string()]);
    broker
        .publish("topic/a".to_string(), b"one".to_vec(), 0)
        .unwrap();
    broker
        .publish("topic/b".to_string(), b"two".to_vec(), 0)
        .unwrap();

    let stats = broker.get_stats();
    assert!(stats.is_running);
    assert_eq!(stats.connected_clients, 2);
    assert_eq!(stats.total_subscriptions, 2);
    assert_eq!(stats.listen_addr, "127.0.0.1:1883");
}

#[test]
fn start_twice_fails_and_stop_clears_everything() {
    let mut broker = MqttBroker::new(MqttConfig::default());
    assert!(!broker.is_running());
    broker.start().unwrap();
    assert!(broker.is_running());
    let again = broker.start();
    assert!(again.is_err());
    assert_eq!(again.unwrap_err().message(), "Broker already running");

    broker.add_client("c".to_string(), vec![]);
    broker.stop().unwrap();
    assert!(!broker.is_running());
    assert_eq!(broker.get_client_count(), 0);
}

#[test]
fn publish_after_stop_reports_closed_channel() {
    let mut broker = MqttBroker::new(MqttConfig::default());
    broker.start().unwrap();
    broker.stop().unwrap();
    let outcome = broker.publish("t".to_string(), vec![1], 0);
    assert_eq!(outcome.unwrap_err(), "Message channel is closed");
}

#[test]
fn add_client_replaces_and_remove_client_forgets() {
    let mut broker = MqttBroker::new(MqttConfig::default());
    broker.add_client("a".to_string(), vec!["x".to_string()]);
    broker.add_client("a".to_string(), vec!["y".to_string(), "z".to_string()]);
    assert_eq!(broker.get_client_count(), 1);
    let clients = broker.get_connected_clients();
    assert_eq!(clients[0].client_id, "a");
    assert_eq!(clients[0].subscriptions, vec!["y".to_string(), "z".to_string()]);

    broker.remove_client(&"a".to_string());
    assert_eq!(broker.get_client_count(), 0);
    // removing an unknown client changes nothing
    broker.remove_client(&"a".to_string());
    assert_eq!(broker.get_client_count(), 0);
}

#[test]
fn update_client_subscriptions_touches_only_that_client() {
    let mut broker = MqttBroker::new(MqttConfig::default());
    broker.add_client("a".to_string(), vec!["x".to_string()]);
    broker.add_client("b".to_string(), vec![]);
    broker.update_client_subscriptions(&"a".to_string(), vec!["p".to_string(), "q".to_string()]);
    let clients = broker.get_connected_clients();
    let a = clients.iter().find(|c| c.client_id == "a").unwrap();
    let b = clients.iter().find(|c| c.client_id == "b").unwrap();
    assert_eq!(a.subscriptions, vec!["p".to_string(), "q".to_string()]);
    assert!(b.subscriptions.is_empty());
    assert_eq!(broker.get_stats().total_subscriptions, 2);
}

#[test]
fn observing_a_message_moves_the_last_seen_stamp() {
    let mut broker = MqttBroker::new(MqttConfig::default());
    broker.start().unwrap();
    broker.add_client("origin".to_string(), vec![]);
    broker
        .publish("t".to_string(), b"ping".to_vec(), 1)
        .unwrap();
    // attribute the queued message to the client, then observe it
    let m = broker.process_next().unwrap();
    assert_eq!(m.topic, "t");
    let stamped = mqtt_bridge::message::MqttMessage::new("t".to_string(), vec![], 0)
        .with_client_id("origin".to_string());
    let mut wanted = stamped;
    wanted.timestamp = 12345;
    broker.observe_message(&wanted);
    let clients = broker.get_connected_clients();
    assert_eq!(clients[0].last_seen, 12345);
}

#[test]
fn process_next_on_empty_queue_is_none() {
    let mut broker = MqttBroker::new(MqttConfig::default());
    assert!(broker.process_next().is_none());
}

#[test]
fn start_hands_exactly_one_runtime_out() {
    let mut broker = MqttBroker::new(MqttConfig::default());
    // before start no runtime is held
    assert!(broker.take_runtime().is_none());
    broker.start().unwrap();
    // start constructed the embedded broker; taking it empties the slot
    let runtime = broker.take_runtime();
    assert!(runtime.is_some());
    assert!(broker.take_runtime().is_none());
    assert!(broker.is_running());
}

#[test]
fn published_messages_carry_no_retain_and_no_origin() {
    let mut broker = MqttBroker::new(MqttConfig::default());
    broker
        .publish("t".to_string(), b"payload".to_vec(), 2)
        .unwrap();
    let m = broker.process_next().unwrap();
    assert!(!m.retain);
    assert!(m.client_id.is_none());
    assert_eq!(m.qos, 2);
}

#[test]
fn stop_keeps_already_queued_messages_readable() {
    let mut broker = MqttBroker::new(MqttConfig::default());
    broker.start().unwrap();
    broker.publish("t".to_string(), b"one".to_vec(), 0).unwrap();
    broker.stop().unwrap();
    // the receiver side still drains what was queued before the stop
    let m = broker.process_next().unwrap();
    assert_eq!(m.payload, b"one".to_vec());
    assert!(broker.process_next().is_none());
}
