[package]
name = "massa_protocol"
version = "0.1.0"
edition = "2021"
publish = false

[dependencies]
bitcoin_hashes = "0.14"
bs58 = { version = "0.5", features = ["check"] }
secp256k1 = "0.29"
k256 = { version = "0.13", features = ["schnorr"] }
serde = { version = "1", features = ["derive"] }
