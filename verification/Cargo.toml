[package]
name = "kce"
version = "0.1.0"
edition = "2021"
publish = false

[dependencies]
crc32fast = "1"
serde = { version = "1", features = ["derive"] }
serde_json = "1"
uuid = { version = "1", features = ["v4", "serde"] }
bytes = "1"
rand = "0.8"
parking_lot = "0.12"
memmap2 = "0.9"
rayon = "1"
tokio = { version = "1", features = ["full"] }
axum = "0.7"
tower-http = { version = "0.5", features = ["limit"] }
tracing = "0.1"
tracing-subscriber = "0.3"
dotenvy = "0.15"
thiserror = "1"
futures-util = "0.3"
tokio-tungstenite = "0.21"
io-uring = "0.6"
libc = "0.2"
