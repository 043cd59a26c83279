[package]
name = "snakeway"
version = "0.1.0"
edition = "2021"
publish = false

[dependencies]
ahash = "=0.8.12"
arc-swap = "1"
base64 = "=0.22.1"
dashmap = "6"
hmac = "=0.12.1"
sha2 = "=0.10.9"
serde = { version = "=1.0.229", features = ["derive"] }
serde_json = "=1.0.154"
smallvec = "1"
http = "=1.5.0"
