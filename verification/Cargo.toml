[package]
name = "socketio_middleware"
version = "0.1.0"
edition = "2021"
publish = false

[dependencies]
rand = "0.8"
rust-crypto = "0.2"
base64 = "0.13"
tokio = { version = "1", features = ["full"] }
tokio-tungstenite = "0.20"
tokio-stream = "0.1"
futures = "0.3"
futures-util = "0.3"
hyper = { version = "0.14", features = ["full"] }
serde = { version = "1", features = ["derive"] }
serde_json = "1"
lazy_static = "1"
log = "0.4"
trezm-redis = "=0.15.2-alpha.0"
