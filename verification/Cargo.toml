[package]
name = "tls_accept"
version = "0.1.0"
edition = "2021"
publish = false

[dependencies]
futures = "0.1"
log = "0.4"
native-tls = "0.2"
tokio-reactor = "0.1"
tokio-tcp = "0.1"
tokio-timer = "0.2"
tokio-tls = "0.2"
