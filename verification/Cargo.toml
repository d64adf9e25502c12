[package]
name = "jaringan"
version = "0.1.0"
edition = "2021"
publish = false

[dependencies]
url = "=2.5.8"
base64 = "=0.22.1"
ed25519-dalek = "=2.2.0"
chacha20poly1305 = "=0.10.1"
serde = { version = "=1.0.229", features = ["derive"] }
serde_json = "=1.0.154"
serde_yaml = "=0.9.34"
syntect = { version = "5", default-features = false, features = ["default-fancy"] }
