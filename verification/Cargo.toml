[package]
name = "mqtt_bridge"
version = "0.1.0"
edition = "2021"
publish = false

[dependencies]
rumqttc = "*"
rumqttd = "*"
uuid = { version = "*", features = ["v4"] }
chrono = "*"
tokio = { version = "*", features = ["full"] }
reqwest = { version = "*", default-features = false, features = ["json"] }
serde = { version = "*", features = ["derive"] }
serde_json = "*"
log = "*"
env_logger = "*"
dotenvy = "*"
anyhow = "*"
