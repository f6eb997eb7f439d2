[package]
name = "ensemble"
version = "0.1.0"
edition = "2021"
publish = false

[dependencies]
async-tungstenite = { version = "=0.35.0", features = ["tokio-runtime"] }
axum = { version = "=0.8.9", features = ["ws"] }
bytes = "=1.12.1"
dashmap = "=6.2.1"
futures-util = "=0.3.34"
log = "=0.4.35"
postcard = { version = "=1.1.3", features = ["alloc"] }
rand = "=0.9.5"
rustls = { version = "=0.23.46", default-features = false, features = ["ring", "std"] }
serde = { version = "=1.0.229", features = ["derive"] }
serde_json = "=1.0.154"
tokio = { version = "=1.54.1", features = ["full"] }
tokio-tungstenite = "=0.29.0"
tracing = "=0.1.44"
tracing-subscriber = { version = "=0.3.23", features = ["env-filter"] }
turn = "=0.17.2"
uuid = { version = "=1.29.0", features = ["v4"] }
web-time = "=1.1.0"
webrtc = "=0.17.2"
webrtc-util = "=0.17.2"
