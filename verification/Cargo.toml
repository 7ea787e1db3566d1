[package]
name = "cnc_control"
version = "0.1.0"
edition = "2021"
publish = false

[dependencies]
ringbuf = "0.3"
tokio = { version = "1", features = ["full"] }
futures = "0.3"
serde = { version = "1", features = ["derive"] }
serde_json = "1"
chrono = "0.4"
async-stream = "0.3"
async-trait = "0.1"
axum = { version = "0.5", features = ["ws", "multipart"] }
tower-http = { version = "0.3", features = ["cors", "catch-panic"] }
hyper = { version = "0.14", features = ["full"] }
tokio-serial = { version = "5", default-features = false }
itertools = "0.10"
pin-project = "1"
anyhow = "1"
nom = "7"
roxmltree = "0.18"
clap = { version = "4", features = ["derive"] }
