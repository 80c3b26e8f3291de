[package]
name = "stok"
version = "0.1.0"
edition = "2021"
publish = false

[dependencies]
dashmap = "*"
uuid = { version = "*", features = ["v4"] }
tokio = { version = "*", features = ["rt-multi-thread", "sync", "time", "macros"] }
tokio-stream = { version = "*", features = ["sync"] }
tonic = { version = "*", default-features = false }
log = "*"
env_logger = "*"
tracing = "*"
tracing-subscriber = "*"
thiserror = "*"
