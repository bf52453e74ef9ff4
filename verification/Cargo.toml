[package]
name = "vertic"
version = "0.1.0"
edition = "2021"
publish = false

[dependencies]
parity-scale-codec = "2"
blake2-rfc = "0.2"
lru = "0.6"
