use mqtt_bridge::json::JsonLeaf;
use mqtt_bridge::v0::{
    Envelope, EventContent, EventError, EventStatus, MessageContent, MessageMeta, MessageType,
};

#[test]
fn test_user_message() {
    let msg = Envelope::user("明早 7 点提醒我开会".to_string());
    let json = msg.to_json();
    assert!(json.contains("\"type\":\"user\""));
    assert!(json.contains("明早 7 点提醒我开会"));

    let parsed: Envelope = Envelope::from_json(&json).unwrap();
    assert_eq!(parsed.message_type, MessageType::User);
    match parsed.content {
        MessageContent::Text(ref s) => assert_eq!(s, "明早 7 点提醒我开会"),
        _ => panic!("Expected Text content"),
    }
}

#[test]
fn test_event_ok() {
    let data = vec![("id".to_string(), JsonLeaf::Str("r-1".to_string()))];

    let event = EventContent::ok("mod-002".to_string(), data);
    let msg = Envelope::event(event);

    let json = msg.to_json();
    assert!(json.contains("\"type\":\"event\""));
    assert!(json.contains("\"status\":\"ok\""));
    assert!(json.contains("\"source\":\"mod-002\""));

    let parsed: Envelope = Envelope::from_json(&json).unwrap();
    assert_eq!(parsed.message_type, MessageType::Event);
}

#[test]
fn test_event_error() {
    let error = EventError {
        code: "E001".to_string(),
        message: "处理失败".to_string(),
    };

    let event = EventContent::error("mod-003".to_string(), error);
    assert!(event.validate().is_ok());

    let msg = Envelope::event(event);
    let json = msg.to_json();

    assert!(json.contains("\"status\":\"error\""));
    assert!(json.contains("\"code\":\"E001\""));
}

#[test]
fn test_parse_fixture() {
    let json = r#"{ "type": "user", "content": "明早 7 点提醒我开会" }"#;
    let msg: Envelope = Envelope::from_json(json).unwrap();
    assert_eq!(msg.message_type, MessageType::User);

    let json2 = r#"{ "type": "event", "content": { "source": "mod-002", "status": "ok", "data": { "id": "r-1" } } }"#;
    let msg2: Envelope = Envelope::from_json(json2).unwrap();
    assert_eq!(msg2.message_type, MessageType::Event);
}

#[test]
fn test_event_validation() {
    let invalid_ok = EventContent {
        source: "test".to_string(),
        status: EventStatus::Success,
        data: None,
        error: None,
    };
    assert!(invalid_ok.validate().is_err());

    let invalid_error = EventContent {
        source: "test".to_string(),
        status: EventStatus::Error,
        data: None,
        error: None,
    };
    assert!(invalid_error.validate().is_err());
}

#[test]
fn test_meta() {
    let meta = MessageMeta::new();
    assert_eq!(meta.schema_version, "v0");

    assert_eq!(meta.utc_offset_secs, 8 * 3600);

    let msg = Envelope::user("测试".to_string()).with_meta(meta);
    assert_eq!(msg.meta.schema_version, "v0");

    let json = msg.to_json();
    let parsed: Envelope = Envelope::from_json(&json).unwrap();
    assert_eq!(parsed.meta.schema_version, "v0");
    assert_eq!(parsed.meta.utc_offset_secs, 8 * 3600);
}

#[test]
fn test_event_round_trip_with_data_and_error() {
    let data = vec![
        ("count".to_string(), JsonLeaf::Int(3)),
        ("flag".to_string(), JsonLeaf::Bool(true)),
        ("note".to_string(), JsonLeaf::Null),
        ("who".to_string(), JsonLeaf::Str("a\"b\\c".to_string())),
    ];
    let event = EventContent {
        source: "mod-009".to_string(),
        status: EventStatus::Error,
        data: Some(data),
        error: Some(EventError {
            code: "E_TIMEOUT".to_string(),
            message: "scheduler timeout".to_string(),
        }),
    };
    let msg = Envelope::event(event.clone());
    let json = msg.to_json();
    let parsed = Envelope::from_json(&json).unwrap();
    match parsed.content {
        MessageContent::Event(ev) => {
            assert_eq!(ev.source, "mod-009");
            assert_eq!(ev.status, EventStatus::Error);
            assert_eq!(ev.data, event.data);
            assert_eq!(ev.error, event.error);
        }
        _ => panic!("Expected Event content"),
    }
}

#[test]
fn test_system_message_round_trip() {
    let content = vec![
        ("mode".to_string(), JsonLeaf::Str("maintenance".to_string())),
        ("ttl".to_string(), JsonLeaf::Int(3600)),
    ];
    let msg = Envelope::system(content.clone());
    let json = msg.to_json();
    let parsed = Envelope::from_json(&json).unwrap();
    assert_eq!(parsed.message_type, MessageType::System);
    match parsed.content {
        MessageContent::Object(o) => assert_eq!(o, content),
        _ => panic!("Expected Object content"),
    }
}

#[test]
fn test_pretty_output_parses_back() {
    let msg = Envelope::user("hello".to_string());
    let pretty = msg.to_json_pretty();
    assert!(pretty.contains("\n"));
    let parsed = Envelope::from_json(&pretty).unwrap();
    assert_eq!(parsed.message_type, MessageType::User);
}

#[test]
fn test_from_json_rejects_wrong_content_shape() {
    // a user message whose content is not a string follows no decode path
    let json = r#"{ "type": "user", "content": { "a": 1 } }"#;
    assert!(Envelope::from_json(json).is_err());
    // an event whose content is a string follows none either
    let json2 = r#"{ "type": "event", "content": "text" }"#;
    assert!(Envelope::from_json(json2).is_err());
}
