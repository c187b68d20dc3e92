[package]
name = "pnl_relay"
version = "0.1.0"
edition = "2021"
publish = false

[dependencies]
anyhow = "1"
dotenvy = "0.15"
env_logger = "0.11"
futures-util = "0.3"
log = "0.4"
rustls = { version = "0.23", default-features = false, features = ["ring", "logging", "std", "tls12"] }
serde = { version = "1", features = ["derive"] }
tokio = { version = "1", features = ["full"] }
tokio-postgres = "0.7"
tokio-postgres-rustls = "0.13"
tokio-tungstenite = "0.24"
webpki-roots = "0.26"
