[package]
name = "arb-arbos"
version = "0.1.0"
edition = "2021"
publish = false

[dependencies]
alloy-primitives = "*"
alloy-rlp = "*"
brotli = "*"
revm = { version = "*", default-features = false, features = ["std"] }
