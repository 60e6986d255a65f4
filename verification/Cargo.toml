[package]
name = "scrypt_hash"
version = "0.1.0"
edition = "2021"
publish = false

[dependencies]
scrypt = "0.8"

[dev-dependencies]
hex = "0.4"
