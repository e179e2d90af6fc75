[package]
name = "ethereum_consensus"
version = "0.1.0"
edition = "2021"
publish = false

[dependencies]
sha2 = "0.10"

[dev-dependencies]
ssz_rs = "0.9"
