[package]
name = "http"
version = "0.1.0"
edition = "2021"
publish = false

[dependencies]
env_logger = "=0.11.11"
futures = "=0.1.31"
httparse = "=1.10.1"
rustc-serialize = "=0.3.25"
sha1 = "=0.6.1"
tokio-core = "=0.1.18"
tokio-service = "=0.1.0"
