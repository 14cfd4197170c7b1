[package]
name = "tx_relay"
version = "0.1.0"
edition = "2021"
publish = false

[dependencies]
regex = "*"
flatbuffers = "*"
log = "*"
numext-fixed-hash = "*"
serde = { version = "*", features = ["derive"] }
sentry = { version = "*", default-features = false }
tokio = { version = "*", features = ["rt-multi-thread", "sync", "time"] }
