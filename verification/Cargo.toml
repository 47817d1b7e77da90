[package]
name = "peernet"
version = "0.1.0"
edition = "2021"
publish = false

[dependencies]
anyhow = "1"
bytes = "1"
tokio = { version = "1", features = ["rt", "rt-multi-thread", "sync", "macros", "time"] }
tower = { version = "0.4", features = ["util"] }
tracing = "0.1"
