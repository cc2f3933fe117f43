[package]
name = "rollout_coordinator"
version = "0.1.0"
edition = "2021"
publish = false

[dependencies]
blake3 = "1"
ulid = "1"
serde = { version = "1", features = ["derive"] }
serde_json = "1"
toml = "0.8"
clap = { version = "4", features = ["derive"] }
