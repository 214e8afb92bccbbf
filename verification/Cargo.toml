[package]
name = "repo_discovery"
version = "0.1.0"
edition = "2021"
publish = false

[dependencies]
rand = "=0.8.8"
anyhow = "*"
clap = { version = "*", features = ["derive"] }
csv-async = { version = "*", features = ["tokio"] }
env_logger = "*"
http = "*"
indicatif = "*"
log = "*"
octocrab = "=0.44.1"
serde = "*"
serde_derive = "*"
tokio = { version = "*", features = ["full"] }
