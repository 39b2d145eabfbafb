[package]
name = "zeroclaw-runtime"
version = "0.1.0"
edition = "2021"
publish = false

[dependencies]
anyhow = "1"
async-trait = "0.1"
serde_json = "1"
tokio = { version = "1", features = ["fs", "rt", "time"] }
tracing = "0.1"
uuid = { version = "1", features = ["v4"] }
