use mqtt_bridge::v0::{Envelope, MessageContent, MessageMeta, MessageType};
use mqtt_bridge::version::{SchemaVersion, VersionedEnvelope};

#[test]
fn test_schema_version_parsing() {
    assert_eq!("v0".parse::<SchemaVersion>().unwrap(), SchemaVersion::V0);
    assert_eq!("V0".parse::<SchemaVersion>().unwrap(), SchemaVersion::V0);
    assert!("v1".parse::<SchemaVersion>().is_err());
}

#[test]
fn test_schema_version_display() {
    assert_eq!(SchemaVersion::V0.to_string(), "v0");
}

#[test]
fn test_schema_version_default() {
    assert_eq!(SchemaVersion::default(), SchemaVersion::V0);
}

#[test]
fn test_schema_version_compatibility() {
    assert!(SchemaVersion::V0.is_compatible_with(&SchemaVersion::V0));
}

#[test]
fn test_versioned_envelope_without_meta() {
    let json = r#"{ "type": "user", "content": "测试" }"#;
    let versioned = VersionedEnvelope::from_json(json).unwrap();
    assert_eq!(versioned.version(), SchemaVersion::V0);
    assert!(versioned.as_v0().is_some());
}

#[test]
fn test_versioned_envelope_with_meta() {
    let json = r#"{
        "type": "user",
        "content": "测试",
        "meta": {
            "schema_version": "v0"
        }
    }"#;
    let versioned = VersionedEnvelope::from_json(json).unwrap();
    assert_eq!(versioned.version(), SchemaVersion::V0);
}

#[test]
fn test_versioned_envelope_round_trip() {
    let json = r#"{ "type": "user", "content": "测试" }"#;
    let versioned = VersionedEnvelope::from_json(json).unwrap();
    let json_out = versioned.to_json();
    let versioned2 = VersionedEnvelope::from_json(&json_out).unwrap();
    assert_eq!(versioned.version(), versioned2.version());
}

#[test]
fn test_backward_compatibility_without_version() {
    let json = r#"{ "type": "user", "content": "测试" }"#;

    let versioned = VersionedEnvelope::from_json(json).unwrap();
    assert_eq!(versioned.version(), SchemaVersion::V0);

    let envelope = versioned.as_v0().unwrap();
    assert_eq!(envelope.message_type, MessageType::User);
}

#[test]
fn test_version_round_trip() {
    let meta = MessageMeta {
        schema_version: "v0".to_string(),
        timestamp_secs: 1700000000,
        utc_offset_secs: 8 * 3600,
    };

    let envelope = Envelope::user("测试消息".to_string()).with_meta(meta);
    let json = envelope.to_json();

    let versioned = VersionedEnvelope::from_json(&json).unwrap();
    assert_eq!(versioned.version(), SchemaVersion::V0);

    let json2 = versioned.to_json();
    let versioned2 = VersionedEnvelope::from_json(&json2).unwrap();
    assert_eq!(versioned.version(), versioned2.version());
    match &versioned2.as_v0().unwrap().content {
        MessageContent::Text(t) => assert_eq!(t, "测试消息"),
        _ => panic!("Expected Text content"),
    }
}

#[test]
fn test_versioned_envelope_rejects_garbage() {
    assert!(VersionedEnvelope::from_json("not json at all").is_err());
    assert!(VersionedEnvelope::from_json("{}").is_err());
}

#[test]
fn test_upgrade_to_same_version() {
    let json = r#"{ "type": "user", "content": "hello" }"#;
    let versioned = VersionedEnvelope::from_json(json).unwrap();
    let upgraded = versioned.upgrade_to(SchemaVersion::V0).unwrap();
    assert_eq!(upgraded.version(), SchemaVersion::V0);
}

#[test]
fn test_into_v0() {
    let json = r#"{ "type": "user", "content": "hello" }"#;
    let versioned = VersionedEnvelope::from_json(json).unwrap();
    let envelope = versioned.into_v0().unwrap();
    assert_eq!(envelope.message_type, MessageType::User);
}

#[test]
fn test_all_and_latest() {
    assert_eq!(SchemaVersion::all(), vec![SchemaVersion::V0]);
    assert_eq!(SchemaVersion::latest(), SchemaVersion::V0);
    assert_eq!(
        mqtt_bridge::version::default_schema_version(),
        "v0".to_string()
    );
}
