[package]
name = "runners"
version = "0.1.0"
edition = "2021"
publish = false

[dependencies]
anyhow = "1"
async-trait = "0.1"
bollard = "=0.16.1"
chrono = { version = "=0.4.45", features = ["serde"] }
dotenvy = "0.15"
futures-util = "0.3"
hex = "=0.4.3"
reqwest = { version = "0.12", default-features = false, features = ["json", "multipart"] }
serde = { version = "1", features = ["derive"] }
serde_json = "1"
sha2 = "=0.10.9"
sysinfo = "=0.30.13"
tokio = { version = "1", features = ["rt-multi-thread", "macros", "signal", "process", "fs", "io-util", "time", "sync"] }
tokio-tungstenite = "=0.21.0"
tracing = "0.1"
tracing-subscriber = { version = "0.3", features = ["env-filter", "fmt"] }
