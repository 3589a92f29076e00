[package]
name = "saito"
version = "0.1.0"
edition = "2021"
publish = false

[dependencies]
base58 = "*"
merkle = "*"
rand = "*"
ring = "0.16"
secp256k1 = { version = "*", features = ["rand"] }
sha2 = "*"
