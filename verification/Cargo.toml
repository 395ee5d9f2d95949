[package]
name = "http_server"
version = "0.1.0"
edition = "2021"
publish = false

[dependencies]
anyhow = "1"
bytes = "1"
flate2 = "1"
tokio = { version = "1", features = ["io-util", "macros", "net", "rt-multi-thread"] }
