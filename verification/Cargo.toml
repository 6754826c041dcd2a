[package]
name = "telemetry"
version = "0.1.0"
edition = "2021"
publish = false

[dependencies]
anyhow = "*"
axum = "*"
axum-server = "*"
serde = { version = "*", features = ["derive"] }
tokio = { version = "*", features = ["full"] }
