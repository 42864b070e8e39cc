[package]
name = "pubky_auth"
version = "0.1.0"
edition = "2021"
publish = false

[dependencies]
ed25519-dalek = "2"
blake3 = "1"
rand = "0.8"
