[package]
name = "unison"
version = "0.1.0"
edition = "2021"
publish = false

[dependencies]
get_if_addrs = "0.5"
tokio = { version = "1", features = ["rt", "macros", "net", "time", "sync"] }
tokio-tungstenite = "*"
futures-util = "0.3"
log = "0.4"
env_logger = "0.11"
rodio = "*"

[dev-dependencies]
bincode = "1"
