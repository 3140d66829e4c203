use mqtt_bridge::models::{Message, Response};

#[test]
fn test_message_creation() {
    let msg = Message::new("1".to_string(), "Hello".to_string(), 123456789);
    assert_eq!(msg.id, "1");
    assert_eq!(msg.content, "Hello");
    assert_eq!(msg.timestamp, 123456789);
}

#[test]
fn test_response_success() {
    let response = Response::success("data");
    assert!(response.success);
    assert_eq!(response.data, Some("data"));
    assert_eq!(response.error, None);
}

#[test]
fn test_response_error() {
    let response: Response<String> = Response::error("error message".to_string());
    assert!(!response.success);
    assert_eq!(response.data, None);
    assert_eq!(response.error, Some("error message".to_string()));
}
