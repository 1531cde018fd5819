[package]
name = "prozchain_lib"
version = "0.1.0"
edition = "2021"
publish = false

[dependencies]
hex = "*"
rand = "*"
serde = { version = "*", features = ["derive"] }
toml = "*"
tokio = { version = "*", features = ["full"] }
log = "*"
env_logger = "*"
prometheus = "*"
chrono = "*"
thiserror = "*"
