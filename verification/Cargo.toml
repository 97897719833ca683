[package]
name = "tcp-channel-client"
version = "0.4.0"
edition = "2021"
publish = false

[dependencies]
anyhow = "1"
async-channel = "2"
log = "0.4"
thiserror = "2"
tokio = { version = "1", features = ["io-util", "net", "rt", "rt-multi-thread", "sync", "time"] }
