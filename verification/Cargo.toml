[package]
name = "mc_gateway"
version = "0.1.0"
edition = "2021"
publish = false

[dependencies]
arc-swap = "1"
base64 = "0.22"
clap = { version = "4", features = ["derive", "env"] }
dashmap = "6"
governor = "0.10"
humantime-serde = "1"
ipnet = { version = "2", features = ["serde"] }
metrics = "*"
metrics-exporter-prometheus = { version = "*", default-features = false, features = ["http-listener"] }
proxy-header = "*"
serde = { version = "1", features = ["derive"] }
serde_json = "1"
serde_yaml_ng = "*"
socket2 = { version = "*", features = ["all"] }
thiserror = "2"
tokio = { version = "1", features = ["full"] }
tracing = "0.1"
tracing-subscriber = { version = "0.3", features = ["env-filter", "json"] }
