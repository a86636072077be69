[package]
name = "gtmux_http_api"
version = "0.1.0"
edition = "2021"
publish = false

[dependencies]
ring = "0.17"
serde = { version = "1", features = ["derive"] }
serde_json = "1"
fs2 = "0.4"
thiserror = "2"
