[package]
name = "choreo_optimize"
version = "0.1.0"
edition = "2021"
publish = false

[dependencies]
regex = "1"
tokio = { version = "1", default-features = false, features = ["sync"] }
tracing = "0.1"
