[package]
name = "cleanr"
version = "0.1.0"
edition = "2021"
publish = false

[dependencies]
semver = "=1.0.28"
uuid = { version = "=1.29.0", features = ["v4"] }
sha2 = "=0.10.9"
chrono = "=0.4.45"
serde = { version = "=1.0.229", features = ["derive"] }
serde_json = "=1.0.154"
toml = "=0.8.23"
anyhow = "=1.0.104"
clap = { version = "=4.6.7", features = ["derive"] }
dirs = "=5.0.1"
globset = "0.4"
serde_yaml = "0.9"
