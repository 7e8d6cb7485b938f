[package]
name = "hanui"
version = "0.1.0"
edition = "2021"
publish = false

[dependencies]
slint = { version = "1", default-features = false, features = ["compat-1-2", "std"] }
tokio = { version = "1", features = ["rt", "sync", "time"] }
tracing = "0.1"
