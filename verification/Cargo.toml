[package]
name = "evm_shared_cache"
version = "0.1.0"
edition = "2021"
publish = false

[dependencies]
bit-set = "*"
keccak-hash = "*"
ethereum-types = "*"
rustc-hex = "*"
parking_lot = "*"
docopt = "*"
serde = { version = "1", features = ["derive"] }
env_logger = "*"
