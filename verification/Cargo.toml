[package]
name = "mev_pool_discovery"
version = "0.1.0"
edition = "2021"
publish = false

[dependencies]
alloy-primitives = { version = "=1.7.3", features = ["serde"] }
alloy-sol-types = "=1.7.3"
dashmap = "=6.2.1"
serde = { version = "=1.0.229", features = ["derive"] }
serde_json = "=1.0.154"
eyre = "=0.6.14"
