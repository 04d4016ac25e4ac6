[package]
name = "smtp_adapter"
version = "0.1.0"
edition = "2021"
publish = false

[dependencies]
tokio = { version = "1", features = ["rt-multi-thread", "net", "io-util", "macros"] }
anyhow = "1"
log = "0.4"
env_logger = "0.11"
