[package]
name = "minihttp"
version = "0.1.0"
edition = "2021"
publish = false

[dependencies]
anyhow = "*"
flate2 = "*"
tokio = { version = "*", features = ["rt-multi-thread", "net", "io-util", "fs", "macros"] }
