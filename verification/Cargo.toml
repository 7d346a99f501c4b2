[package]
name = "resp_core"
version = "0.1.0"
edition = "2021"
publish = false

[dependencies]
anyhow = "*"
tokio = { version = "*", features = ["net", "io-util", "rt-multi-thread", "macros", "sync", "time"] }
