[package]
name = "tsfs"
version = "0.1.0"
edition = "2021"
publish = false

[dependencies]
base64 = "=0.22.1"
chacha20poly1305 = "=0.10.1"
rsa = { version = "=0.9.10", features = ["sha2"] }
rand = "=0.8.8"
uuid = { version = "=1.27.0", features = ["v4"] }
opaque-ke = { version = "=3.0.0", features = ["argon2", "ristretto255"] }
argon2 = "=0.5.3"
serde = { version = "=1.0.229", features = ["derive"] }
serde_json = "=1.0.151"
axum = "=0.7.9"
tokio = { version = "=1.53.2", features = ["rt-multi-thread", "macros"] }
reqwest = { version = "=0.12.28", default-features = false, features = ["blocking", "json", "rustls-tls"] }
