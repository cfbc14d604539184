[package]
name = "socks_forwarder"
version = "0.1.0"
edition = "2021"
publish = false

[dependencies]
dashmap = "*"
anyhow = "*"
async-channel = "*"
bluer = { version = "*", features = ["bluetoothd", "l2cap"] }
env_logger = "*"
futures = "*"
log = "*"
serde = { version = "*", features = ["derive"] }
serde_json = "*"
tokio = { version = "*", features = ["rt", "net", "io-util", "time", "signal", "sync", "macros"] }
uuid = "*"
