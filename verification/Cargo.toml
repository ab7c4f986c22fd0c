[package]
name = "evm_bench"
version = "0.1.0"
edition = "2021"
publish = false

[dependencies]
sha3 = "*"
serde = { version = "*", features = ["derive"] }
serde_json = "*"
anyhow = "*"
clap = { version = "*", features = ["derive"] }
colored = "*"
comfy-table = "*"
tempfile = "*"
which = "*"
revm = "*"
