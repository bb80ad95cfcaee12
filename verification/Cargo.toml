[package]
name = "cryptoballot"
version = "0.1.0"
edition = "2021"
publish = false

[dependencies]
sharks = "=0.3.3"
ecies = { version = "=0.2.0", default-features = false, features = ["pure"] }
ed25519-dalek = "=1.0.1"
rsa = { version = "=0.3.0", features = ["serde"] }
serde = { version = "1", features = ["derive"] }
serde_cbor = "=0.11.2"
hex-buffer-serde = "0.3"
hex-serde = "=0.1.0"
