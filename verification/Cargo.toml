[package]
name = "chess_core"
version = "0.1.0"
edition = "2021"
publish = false

[dependencies]
cozy-chess = "0.3.4"
anyhow = "1"
tokio = { version = "1", features = ["io-util", "macros", "process", "rt", "sync", "time"] }
