[package]
name = "log_relay"
version = "0.1.0"
edition = "2021"
publish = false

[dependencies]
chrono = { version = "0.4", features = ["serde"] }
config = { version = "0.11", default-features = false }
futures = "0.3"
log = "0.4"
pretty_env_logger = "0.4"
redis = { version = "0.20", features = ["tokio-comp", "connection-manager"] }
serde = { version = "1", features = ["derive"] }
serde_derive = "1"
serde_json = "1"
tokio = { version = "1", features = ["full"] }
warp = "0.3"
