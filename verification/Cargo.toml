[package]
name = "reversal_backtest"
version = "0.1.0"
edition = "2021"
publish = false

[dependencies]
anyhow = "=1.0.104"
axum = { version = "=0.7.9", features = ["multipart"] }
chrono = "=0.4.45"
csv = "=1.4.0"
litchi = { version = "=0.0.1", default-features = false, features = ["iwa"] }
serde = { version = "=1.0.229", features = ["derive"] }
tokio = { version = "=1.54.1", features = ["full"] }
