[package]
name = "relay_admin"
version = "0.1.0"
edition = "2021"
publish = false

[dependencies]
nostr-sdk = "*"
serde_json = "1"
rand = "0.8"
serde = { version = "1", features = ["derive"] }
axum = "0.8"
tokio = { version = "1", features = ["full"] }
tokio-util = "0.7"
parking_lot = "0.12"
tracing = "0.1"
once_cell = "1"
