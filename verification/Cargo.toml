[package]
name = "redis-rust-proxy"
version = "0.1.0"
edition = "2021"
publish = false

[dependencies]
redis = "0.20"
url = "2"
tokio = { version = "0.2", features = ["full"] }
clap = "2"
rand = "0.7"
env_logger = "0.8"
log = "0.4"
chrono = "0.4"
futures = "0.3"
net2 = "0.2"
