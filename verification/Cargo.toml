[package]
name = "crabkit"
version = "0.1.0"
edition = "2021"
publish = false

[dependencies]
slug = "=0.1.6"
convert_case = "=0.6.0"
image = { version = "=0.25.10", default-features = false, features = ["png", "jpeg", "gif"] }
tokio = { version = "=1.53.2", features = ["rt-multi-thread", "net", "io-util", "fs", "signal", "sync", "macros"] }
log = "=0.4.34"
env_logger = "=0.11.11"
