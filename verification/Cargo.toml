[package]
name = "upsert_loader"
version = "0.1.0"
edition = "2021"
publish = false

[dependencies]
anyhow = "*"
clap = { version = "*", features = ["derive"] }
dgraph-tonic = "*"
env_logger = "*"
futures = "*"
indicatif = "*"
log = "*"
rand = "*"
regex = "*"
serde_json = "*"
tokio = { version = "*", features = ["full"] }
tokio-stream = { version = "*", features = ["io-util"] }
tonic = "*"
