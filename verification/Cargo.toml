[package]
name = "ip_notify"
version = "0.1.0"
edition = "2021"
publish = false

[dependencies]
tokio = { version = "*", features = ["full"] }
serenity = "*"
log = "*"
env_logger = "*"
thiserror = "*"
