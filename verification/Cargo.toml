[package]
name = "horizon_atlas"
version = "0.1.0"
edition = "2021"
publish = false

[dependencies]
anyhow = "1"
async-trait = "0.1"
axum = { version = "0.7", default-features = false, features = ["http1", "tokio"] }
base64 = "0.22"
bincode = "1.3"
chrono = { version = "0.4", features = ["serde"] }
dashmap = "5.5"
lz4_flex = "0.11"
parking_lot = "0.12"
prometheus = { version = "0.13", default-features = false }
reqwest = { version = "0.11", default-features = false, features = ["json"] }
ring = "0.17"
serde = { version = "1", features = ["derive"] }
serde_json = "1"
thiserror = "1"
tokio = { version = "1", features = ["full"] }
tokio-tungstenite = { version = "0.21", default-features = false, features = ["connect"] }
tower-http = { version = "0.5", features = ["cors"] }
tracing = "0.1"
uuid = { version = "1", features = ["v4", "serde"] }
