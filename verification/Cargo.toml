[package]
name = "vidarax_api"
version = "0.1.0"
edition = "2021"
publish = false

[dependencies]
axum = { version = "=0.8.9", features = ["multipart"] }
base64 = "=0.22.1"
futures-util = "=0.3.34"
getrandom = "=0.3.4"
governor = "=0.10.4"
hmac = "=0.12.1"
reqwest = { version = "=0.12.28", default-features = false, features = ["json", "rustls-tls"] }
serde = { version = "=1.0.229", features = ["derive"] }
serde_json = "=1.0.154"
sha2 = "=0.10.9"
tokio = { version = "=1.54.1", features = ["full"] }
tokio-stream = "=0.1.19"
tracing = "=0.1.44"
