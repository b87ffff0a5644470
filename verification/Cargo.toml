[package]
name = "minihttp"
version = "0.1.0"
edition = "2021"
publish = false

[dependencies]
serde_json = { version = "=1.0.151", features = ["float_roundtrip"] }
serde = { version = "1", features = ["derive"] }
log = "0.4"
env_logger = "*"
uuid = { version = "1", features = ["serde"] }
