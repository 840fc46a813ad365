[package]
name = "set_rollup"
version = "0.1.0"
edition = "2021"
publish = false

[dependencies]
num-bigint = "0.2"
num-traits = "0.2"
sapling-crypto_ce = "*"
rand = "0.4"
serde = { version = "1", features = ["derive"] }
serde_json = "1"
memmap = "0.7"
exitcode = "1"
