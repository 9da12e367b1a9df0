[package]
name = "zkcat"
version = "0.1.0"
edition = "2021"
publish = false

[dependencies]
sha2 = "0.10"
hex = "0.4"
bincode = "1"
serde_json = "1"
anyhow = "1"
clap = { version = "4", features = ["derive"] }
colored = "2"
risc0-zkvm = "*"
