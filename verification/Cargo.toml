[package]
name = "bibifi"
version = "0.1.0"
edition = "2021"
publish = false

[dependencies]
blake2 = "0.8"
futures = "0.3"
regex = "1"
serde = { version = "1", features = ["derive"] }
serde_json = "1"
signal-hook = "0.1"
tokio = { version = "0.2", features = ["full"] }
