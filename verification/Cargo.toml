[package]
name = "zac"
version = "0.1.0"
edition = "2021"
publish = false

[dependencies]
ark-bn254 = "0.4"
ark-ec = "0.4"
ark-ff = "0.4"
ark-groth16 = "0.4"
ark-serialize = "0.4"
blake3 = { version = "1", features = ["pure"] }
crc32fast = "1"
anyhow = "1"
clap = { version = "4", features = ["derive"] }
hex = "0.4"
rand = "0.8"
rand_chacha = "0.3"
