[package]
name = "nsqd_core"
version = "0.1.0"
edition = "2021"
publish = false

[dependencies]
async-channel = "2"
bytes = "1"
dashmap = "6"
hex = "0.4"
rustls = { version = "0.23", default-features = false }
thiserror = "1"
tokio = { version = "1", features = ["full"] }
tokio-util = { version = "0.7", features = ["codec", "rt"] }
tracing = "0.1"
tracing-subscriber = "0.3"
