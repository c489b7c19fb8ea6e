[package]
name = "ress_core"
version = "0.1.0"
edition = "2021"
publish = false

[dependencies]
anyhow = "1"
bytes = "1"
memchr = "2"
tokio = { version = "1", features = ["rt", "sync"] }
unicode-width = "0.2"
