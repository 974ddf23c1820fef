[package]
name = "http_message"
version = "0.1.0"
edition = "2021"
publish = false

[dependencies]
encoding = "0.2"
tokio = { version = "1", features = ["net", "io-util", "rt-multi-thread", "macros"] }
clap = { version = "4", features = ["derive"] }
