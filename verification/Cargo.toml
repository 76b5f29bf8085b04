[package]
name = "real_ai"
version = "0.1.0"
edition = "2021"
publish = false

[dependencies]
serde_json = "=1.0.151"
flume = "=0.12.0"
crossbeam-channel = "=0.5.17"
zeroize = "*"

[dev-dependencies]
