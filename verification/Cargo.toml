[package]
name = "nimblecache"
version = "0.1.0"
edition = "2021"
publish = false

[dependencies]
anyhow = "1"
bytes = "1"
env_logger = "0.11"
futures = "0.3"
log = "0.4"
tokio = { version = "1", features = ["macros", "rt-multi-thread", "net", "io-util", "sync"] }
tokio-util = { version = "0.7", features = ["codec"] }
