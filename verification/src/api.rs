//! The data shapes of the HTTP boundary: requests and responses the
//! route handlers exchange with their callers. They carry plain values
//! only; the handlers themselves live outside this library.

use crate::json::JsonLeaf;
use crate::ollama::OllamaResponse;
use vstd::prelude::*;

verus! {

/// A registered backend core.
#[derive(Debug, Clone, PartialEq)]
pub struct AICoreConfig {
    pub id: i32,
    pub name: String,
    pub url: String,
    pub description: String,
}

/// A registered generative-text backend.
#[derive(Debug, Clone, PartialEq)]
pub struct OllamaConfig {
    pub id: i32,
    pub name: String,
    pub url: String,
    pub model: String,
    pub description: String,
}

/// A stored message preset.
#[derive(Debug, Clone, PartialEq)]
pub struct MessagePreset {
    pub id: i32,
    pub title: String,
    pub content: String,
    pub kind: String,
    pub tags: Option<String>,
    pub created_at: String,
    pub updated_at: String,
}

/// A request to add a message preset.
#[derive(Debug, Clone, PartialEq)]
pub struct AddMessageRequest {
    pub title: String,
    pub content: String,
    pub kind: String,
    pub tags: Option<String>,
}

/// A request to update a message preset.
#[derive(Debug, Clone, PartialEq)]
pub struct UpdateMessageRequest {
    pub title: String,
    pub content: String,
    pub kind: String,
    pub tags: Option<String>,
}

/// A request to check one registered core's connection.
#[derive(Debug, Clone, PartialEq)]
pub struct CheckConnectionRequest {
    pub id: i32,
}

/// A request to check a generative backend's status.
#[derive(Debug, Clone, PartialEq)]
pub struct OllamaStatusRequest {
    pub url: String,
    pub model: String,
}

/// A request to test a generative backend.
#[derive(Debug, Clone, PartialEq)]
pub struct OllamaTestRequest {
    pub url: String,
    pub prompt: Option<String>,
}

/// A request for one core's information.
#[derive(Debug, Clone, PartialEq)]
pub struct AICoreInfoRequest {
    pub url: String,
}

/// The health-check response.
#[derive(Debug, Clone, PartialEq)]
pub struct HealthResponse {
    pub status: String,
    pub message: String,
    pub version: String,
}

/// The outcome of one connection check.
#[derive(Debug, Clone, PartialEq)]
pub struct ConnectionCheckResponse {
    pub success: bool,
    pub connected: bool,
    pub status: String,
    pub message: String,
    pub response_time: u128,
    pub timestamp: String,
    pub version: Option<String>,
}

/// One row of a check over every registered core.
#[derive(Debug, Clone, PartialEq)]
pub struct CheckAllItem {
    pub id: i32,
    pub name: String,
    pub url: String,
    pub status: String,
    pub message: String,
    pub response_time: u128,
    pub timestamp: String,
    pub version: Option<String>,
    pub model: Option<String>,
}

/// The outcome of testing a generative backend.
#[derive(Debug, Clone, PartialEq)]
pub struct OllamaTestResponse {
    pub success: bool,
    pub connected: bool,
    pub response_time: u128,
    pub timestamp: String,
    pub data: Option<Vec<(String, JsonLeaf)>>,
    pub error: Option<String>,
}

/// A request to connect the client to a broker and subscribe.
#[derive(Debug, Clone, PartialEq)]
pub struct MqttConnectRequest {
    pub host: String,
    pub port: u16,
    pub subscribe_topic: String,
}

/// A request to publish one message.
#[derive(Debug, Clone, PartialEq)]
pub struct MqttPublishRequest {
    pub topic: String,
    pub payload: String,
}

/// One received message, as the boundary reports it.
#[derive(Debug, Clone, PartialEq)]
pub struct MqttMessage {
    pub topic: String,
    pub payload: String,
    pub timestamp: String,
}

/// A request to send a system prompt through a registered core.
#[derive(Debug, Clone, PartialEq)]
pub struct SendSystemPromptRequest {
    pub ai_core_id: i32,
    pub system_prompt: String,
    pub session_id: Option<String>,
}

/// A request to set the model's system prompt.
#[derive(Debug, Clone, PartialEq)]
pub struct SetSystemPromptRequest {
    pub session_id: Option<String>,
    pub system_prompt: String,
}

/// The outcome of setting the system prompt.
#[derive(Debug, Clone, PartialEq)]
pub struct SetSystemPromptResponse {
    pub status: String,
    pub message: OllamaResponse,
    pub session_id: Option<String>,
}

} // verus!
