[package]
name = "soundcore_a3956"
version = "0.1.0"
edition = "2021"
publish = false

[dependencies]
tokio = { version = "1", default-features = false, features = ["sync"] }
tracing = "0.1"
