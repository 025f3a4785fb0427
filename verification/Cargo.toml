[package]
name = "web3_proxy"
version = "0.1.0"
edition = "2021"
publish = false

[dependencies]
anyhow = "=1.0.104"
arc-swap = "=1.9.3"
axum = { version = "=0.6.20", default-features = false, features = ["headers", "json"] }
chrono = { version = "=0.4.45", default-features = false, features = ["clock", "std"] }
counter = "=0.5.7"
dashmap = "=5.5.3"
flume = "=0.10.14"
futures = "=0.3.34"
hashbrown = "=0.13.2"
indexmap = "=1.9.3"
influxdb2 = { version = "=0.4.5", default-features = false, features = ["rustls"] }
influxdb2-structmap = "=0.2.0"
itertools = "=0.10.5"
parking_lot = "=0.12.5"
reqwest = { version = "=0.11.27", default-features = false }
sea-orm = { version = "=0.10.7", default-features = false, features = ["macros", "with-chrono"] }
serde = { version = "=1.0.229", features = ["derive"] }
serde_json = { version = "=1.0.154", features = ["raw_value"] }
tokio = { version = "=1.54.1", features = ["macros", "rt-multi-thread", "sync", "time"] }
tracing = "=0.1.44"
