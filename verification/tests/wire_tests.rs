use mqtt_bridge::message::MqttMessage;
use mqtt_bridge::ollama::{extract_user_message, prompt_preview, reply_topic, OllamaResponse,
    OllamaSession, SessionStore};
use mqtt_bridge::text::u64_to_string;
use mqtt_bridge::config::parse_u16_or;
use mqtt_bridge::wire::{decode_message, encode_message};

fn blank_response() -> OllamaResponse {
    OllamaResponse {
        response: String::new(),
        context: None,
        done: false,
        done_reason: None,
        model: None,
        created_at: None,
        thinking: None,
        total_duration: None,
        load_duration: None,
        prompt_eval_count: None,
        prompt_eval_duration: None,
        eval_count: None,
        eval_duration: None,
    }
}

#[test]
fn message_wire_round_trip() {
    let mut m = MqttMessage::new("sensors/\"quoted\"/topic".to_string(), vec![0, 1, 255], 2);
    m = m.with_retain(true).with_client_id("origin-7".to_string());
    let text = encode_message(&m);
    let back = decode_message(&text).unwrap();
    assert_eq!(back.id, m.id);
    assert_eq!(back.topic, m.topic);
    assert_eq!(back.payload, m.payload);
    assert_eq!(back.qos, m.qos);
    assert_eq!(back.retain, m.retain);
    assert_eq!(back.timestamp, m.timestamp);
    assert_eq!(back.client_id, m.client_id);
}

#[test]
fn message_wire_round_trip_without_client() {
    let m = MqttMessage::new("t".to_string(), vec![], 0);
    let text = encode_message(&m);
    assert!(text.contains("\"client_id\":null"));
    let back = decode_message(&text).unwrap();
    assert_eq!(back.client_id, None);
    assert_eq!(back.payload, Vec::<u8>::new());
}

#[test]
fn message_wire_exact_form() {
    let m = MqttMessage {
        id: "abc".to_string(),
        topic: "t/x".to_string(),
        payload: vec![7, 200],
        qos: 1,
        retain: false,
        timestamp: 42,
        client_id: None,
    };
    assert_eq!(
        encode_message(&m),
        "{\"id\":\"abc\",\"topic\":\"t/x\",\"payload\":[7,200],\"qos\":1,\"retain\":false,\"timestamp\":42,\"client_id\":null}"
    );
}

#[test]
fn decode_rejects_malformed_wire_text() {
    assert!(decode_message("").is_none());
    assert!(decode_message("{}").is_none());
    // an empty topic breaks the message invariant
    let bad =
        "{\"id\":\"a\",\"topic\":\"\",\"payload\":[],\"qos\":0,\"retain\":false,\"timestamp\":0,\"client_id\":null}";
    assert!(decode_message(bad).is_none());
    // a level above two does too
    let bad2 =
        "{\"id\":\"a\",\"topic\":\"t\",\"payload\":[],\"qos\":3,\"retain\":false,\"timestamp\":0,\"client_id\":null}";
    assert!(decode_message(bad2).is_none());
    // trailing bytes are refused
    let good =
        "{\"id\":\"a\",\"topic\":\"t\",\"payload\":[],\"qos\":0,\"retain\":false,\"timestamp\":0,\"client_id\":null}";
    assert!(decode_message(good).is_some());
    let trailing = format!("{} ", good);
    assert!(decode_message(&trailing).is_none());
}

#[test]
fn decimal_formatting() {
    assert_eq!(u64_to_string(0), "0");
    assert_eq!(u64_to_string(90210), "90210");
    assert_eq!(u64_to_string(u64::MAX), "18446744073709551615");
}

#[test]
fn ollama_session_threads_context() {
    let mut session = OllamaSession::new();
    assert!(!session.has_context());
    assert_eq!(session.context_size(), 0);

    let request = session.prepare_request("hi".to_string(), "m".to_string(), false);
    assert_eq!(request.prompt, "hi");
    assert_eq!(request.model, "m");
    assert!(!request.stream);
    assert!(request.context.is_none());

    let mut response = blank_response();
    response.context = Some(vec![1, 2, 3]);
    session.absorb_response(&response);
    assert!(session.has_context());
    assert_eq!(session.context_size(), 3);
    assert_eq!(session.get_context(), Some(vec![1, 2, 3]));

    // a new conversation drops the context before the request goes out
    let fresh = session.prepare_request("again".to_string(), "m".to_string(), true);
    assert!(fresh.context.is_none());
    assert!(!session.has_context());

    session.set_context(vec![9]);
    assert_eq!(session.get_context(), Some(vec![9]));
    session.clear_context();
    assert_eq!(session.get_context(), None);
}

#[test]
fn ollama_response_flags() {
    let mut r = blank_response();
    assert!(!r.has_thinking());
    assert!(!r.is_successfully_done());
    r.thinking = Some(String::new());
    assert!(!r.has_thinking());
    r.thinking = Some("step one".to_string());
    assert!(r.has_thinking());
    r.done = true;
    assert!(r.is_successfully_done());
    r.done_reason = Some("stop".to_string());
    assert!(r.is_successfully_done());
    r.done_reason = Some("length".to_string());
    assert!(!r.is_successfully_done());
}

#[test]
fn session_store_keeps_contexts_by_id() {
    let mut store = SessionStore::new();
    assert_eq!(store.get_context(&"s1".to_string()), None);
    store.save_context("s1".to_string(), vec![1]);
    store.save_context("s2".to_string(), vec![2, 2]);
    assert_eq!(store.get_context(&"s1".to_string()), Some(vec![1]));
    assert_eq!(store.get_context(&"s2".to_string()), Some(vec![2, 2]));
    store.save_context("s1".to_string(), vec![3]);
    assert_eq!(store.get_context(&"s1".to_string()), Some(vec![3]));
    assert_eq!(store.get_context(&"s2".to_string()), Some(vec![2, 2]));
}

#[test]
fn prompt_preview_truncates_at_twenty_characters() {
    assert_eq!(prompt_preview("short"), "short");
    assert_eq!(
        prompt_preview("abcdefghijklmnopqrstuvwxyz"),
        "abcdefghijklmnopqrst"
    );
    // multi-byte characters count as characters, not bytes
    assert_eq!(prompt_preview("你好"), "你好");
}

#[test]
fn user_messages_resolve_body_and_client() {
    let (body, client) =
        extract_user_message("{\"message\":\"hello\",\"client_id\":\"c1\"}");
    assert_eq!(body, "hello");
    assert_eq!(client, "c1");

    let (body, client) = extract_user_message("just plain text");
    assert_eq!(body, "just plain text");
    assert_eq!(client, "unknown");

    let (body, client) = extract_user_message("{\"other\":1}");
    assert_eq!(body, "{\"other\":1}");
    assert_eq!(client, "unknown");

    assert_eq!(reply_topic("c1"), "user/message/c1");
}

#[test]
fn listen_addr_formats_host_and_port() {
    let config = mqtt_bridge::config::MqttConfig::new("0.0.0.0".to_string(), 8884);
    assert_eq!(config.listen_addr(), "0.0.0.0:8884");
    assert_eq!(config.max_connections, 1000);
    assert_eq!(config.session_timeout, 300);
    assert_eq!(config.keep_alive, 60);
    assert!(config.persistence);
    assert_eq!(config.log_level, "info");
}

#[test]
fn config_values_fall_back_on_malformed_text() {
    assert_eq!(parse_u16_or("8884", 1883), 8884);
    assert_eq!(parse_u16_or("", 1883), 1883);
    assert_eq!(parse_u16_or("not-a-port", 1883), 1883);
    assert_eq!(parse_u16_or("70000", 1883), 1883);
    assert_eq!(parse_u16_or("60x", 1883), 1883);
    assert_eq!(parse_u16_or("0", 1883), 0);
}
