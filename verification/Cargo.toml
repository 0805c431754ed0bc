[package]
name = "openassets"
version = "0.1.0"
edition = "2021"
publish = false

[dependencies]
bitcoin = "0.18"
bitcoin_hashes = "0.3"

[dev-dependencies]
hex = "0.3"
