[package]
name = "rust_qsim"
version = "0.1.0"
edition = "2021"
publish = false

[dependencies]
uuid = { version = "1", features = ["v7"] }
itertools = "*"
csv = "1"
tokio = { version = "1", features = ["sync", "rt", "time"] }
derive_builder = "*"
clap = { version = "4", features = ["derive"] }
chrono = "*"
tracing = "*"
