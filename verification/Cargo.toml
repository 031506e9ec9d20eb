[package]
name = "rpcrouter"
version = "0.1.0"
edition = "2021"
publish = false

[dependencies]
anyhow = "1"
async-trait = "0.1"
axum = "0.8"
blake3 = "1"
dashmap = "6"
flate2 = "1"
governor = "0.10"
prometheus = "0.14"
rand = "0.9"
redis = { version = "0.32", features = ["tokio-comp", "connection-manager"] }
reqwest = { version = "0.12", default-features = false, features = ["json", "rustls-tls"] }
serde = { version = "1", features = ["derive"] }
serde_json = "1"
tokio = { version = "1", features = ["full"] }
toml = "0.9"
tower-http = { version = "0.6", features = ["cors"] }
tracing = "0.1"
