[package]
name = "lx_music_sync"
version = "0.1.0"
edition = "2021"
publish = false

[dependencies]
openssl = "0.10"
base64 = "0.22"
flate2 = "1"
rand = "0.9"
dashmap = "6"
serde = { version = "1", features = ["derive"] }
serde_json = "1"
tokio = { version = "1", features = ["full"] }
axum = { version = "0.8", features = ["ws"] }
futures-util = "0.3"
log = "0.4"
env_logger = "0.11"
arc-swap = "1"
