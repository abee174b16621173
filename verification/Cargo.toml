[package]
name = "wolfvoice"
version = "0.1.0"
edition = "2021"
publish = false

[dependencies]
serde_json = "=1.0.154"
serde = { version = "1", features = ["derive"] }
uuid = { version = "=1.29.0", features = ["v4"] }
parking_lot = "0.12"
bytes = "1"
hyper = { version = "0.14", features = ["server", "http1"] }
tokio = { version = "1", features = ["rt-multi-thread", "macros", "net", "time"] }
tokio-rustls = "0.24"
rustls = "0.21"
rustls-pemfile = "1"
log = "0.4"
env_logger = "0.11"
opus = "0.3"
async-trait = "0.1"
rtc = "0.20"
webrtc = "0.20"
