[package]
name = "nq_deribit"
version = "0.1.0"
edition = "2021"
publish = false

[dependencies]
serde_json = "1"
serde = { version = "1", features = ["derive"] }
serde_yaml = "0.9"
anyhow = "1"
thiserror = "2"
async-trait = "0.1"
tokio = { version = "1", features = ["full"] }
tokio-util = "0.7"
flume = "0.11"
futures-util = { version = "0.3", features = ["sink"] }
reqwest = { version = "0.12", default-features = false, features = ["rustls-tls", "json"] }
reqwest-websocket = "0.4"
axum = "0.8"
rumqttc = "0.24"
rand = "0.9"
tracing = "0.1"
