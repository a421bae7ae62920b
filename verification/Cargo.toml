[package]
name = "media_proxy_core"
version = "0.1.0"
edition = "2021"
publish = false

[dependencies]
serde_json = "1"
hyper = { version = "0.14", features = ["full"] }
hyper-tls = "0.5"
tokio = { version = "1", features = ["full"] }
anyhow = "1"
log = "0.4"
simple_logger = "4"
