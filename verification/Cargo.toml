[package]
name = "pngme"
version = "0.1.0"
edition = "2021"
publish = false

[dependencies]
crc = "1"
anyhow = "1"
clap = { version = "3", features = ["derive"] }
colored = "2"
rand = "0.8"
