[package]
name = "surrealdb_iroh"
version = "0.1.0"
edition = "2021"
publish = false

[dependencies]
anyhow = "=1.0.104"
bincode = "=1.3.3"
bytes = { version = "=1.12.1", features = ["serde"] }
iroh = { version = "=0.98.2", default-features = false, features = ["tls-ring"] }
metrics = "=0.24.6"
metrics-exporter-prometheus = { version = "=0.17.2", default-features = false, features = ["http-listener"] }
parking_lot = "=0.12.5"
serde = { version = "=1.0.229", features = ["derive"] }
serde_json = "=1.0.154"
thiserror = "=2.0.21"
tokio = { version = "=1.54.1", features = ["full"] }
tracing = "=0.1.44"
uuid = { version = "=1.29.0", features = ["v4", "serde"] }
zstd = { version = "=0.13.4", default-features = false }
