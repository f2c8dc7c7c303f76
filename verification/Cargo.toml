[package]
name = "savant_core"
version = "0.1.0"
edition = "2021"
publish = false

[dependencies]
hashbrown = "=0.17.1"
opentelemetry = "=0.33.1"
globset = "=0.4.20"
moka = { version = "=0.12.16", features = ["sync"] }
nix = { version = "=0.31.3", features = ["signal"] }
parking_lot = "=0.13.0"
actix-web = "=4.18.1"
tokio = { version = "=1.54.1", features = ["rt-multi-thread", "sync", "macros"] }
serde = { version = "=1.0.229", features = ["derive"] }
prometheus-client = "=0.25.1"
log = "=0.4.34"
anyhow = "=1.0.104"

[dev-dependencies]
opentelemetry_sdk = "=0.33.1"
