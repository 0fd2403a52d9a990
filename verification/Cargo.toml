[package]
name = "redfire-gateway"
version = "0.1.0"
edition = "2021"
publish = false

[dependencies]
tracing = "0.1"
tracing-subscriber = { version = "0.3", features = ["env-filter", "json"] }
tracing-appender = "0.2"
uuid = { version = "1", features = ["v4"] }
chrono = { version = "0.4", features = ["serde"] }
tokio = { version = "1", features = ["rt-multi-thread", "sync", "time", "macros", "net"] }
serde = { version = "1", features = ["derive"] }
serde_json = "1"
dashmap = "5"
rand = "0.8"
sysinfo = "0.30"
bytes = "1"
async-trait = "0.1"
