[package]
name = "hass_bridge"
version = "0.1.0"
edition = "2021"
publish = false

[dependencies]
clap = { version = "*", features = ["derive", "env"] }
env_logger = "*"
futures = "*"
futures-util = "*"
hass-rs = "*"
log = "*"
serde_json = "*"
tokio = { version = "*", features = ["full"] }
tokio-tungstenite = "*"
