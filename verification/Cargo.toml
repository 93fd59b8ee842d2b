[package]
name = "tostr"
version = "0.1.0"
edition = "2021"
publish = false

[dependencies]
secp256k1 = { version = "=0.24.3", features = ["rand-std", "bitcoin-hashes-std"] }
rand = "=0.8.8"
chrono = "=0.4.45"
linkify = "=0.9.0"
log = "=0.4.34"
serde = { version = "=1.0.229", features = ["derive"] }
serde_json = "=1.0.151"
tokio = { version = "=1.53.2", features = ["macros", "rt-multi-thread", "sync", "time", "net"] }
futures-util = "=0.3.34"
tokio-tungstenite = "=0.17.2"
tungstenite = "=0.17.3"
tokio-socks = "=0.5.3"
url = "=2.5.8"
async-process = "=1.8.1"
reqwest = { version = "=0.11.27", default-features = false }
