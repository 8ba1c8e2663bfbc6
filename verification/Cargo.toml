[package]
name = "ccore"
version = "0.1.0"
edition = "2021"
publish = false

[dependencies]
anyhow = "1"
async-trait = "0.1"
bincode = "1"
blake3 = { version = "1", features = ["pure"] }
bytes = "1"
chrono = "0.4"
crossbeam-queue = "0.3"
crossterm = "0.28"
futures = "0.3"
libc = "0.2"
metrics = "0.24"
metrics-exporter-prometheus = { version = "0.16", default-features = false, features = ["http-listener"] }
ratatui = "0.29"
rmp-serde = "1"
serde = { version = "1", features = ["derive"] }
serde_json = "1"
syntect = { version = "5", default-features = false, features = ["default-fancy"] }
tokio = { version = "1", features = ["full"] }
tracing = "0.1"
uuid = { version = "1", features = ["v4"] }
zeromq = "0.4"
