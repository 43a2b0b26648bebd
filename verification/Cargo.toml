[package]
name = "dns_client"
version = "0.1.0"
edition = "2021"
publish = false

[dependencies]
rand = "0.8"
tokio = { version = "1", features = ["net", "rt-multi-thread", "macros"] }
futures = "0.3"
clap = { version = "4", features = ["derive"] }
env_logger = "0.11"
chrono = "0.4"
log = "0.4"
thiserror = "1"
