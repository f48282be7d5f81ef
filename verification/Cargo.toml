[package]
name = "minecraftpingws"
version = "0.1.0"
edition = "2021"
publish = false

[dependencies]
futures-util = "0.3"
hickory-resolver = "0.25"
serde = { version = "1", features = ["derive"] }
serde_json = "1"
tokio = { version = "1", features = ["io-util", "macros", "net", "rt-multi-thread", "sync", "time"] }
tokio-tungstenite = "0.26"
