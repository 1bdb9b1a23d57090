[package]
name = "cai"
version = "0.1.0"
edition = "2021"
publish = false

[dependencies]
serde = { version = "*", features = ["derive"] }
serde_json = "*"
anyhow = "*"
thiserror = "*"
futures = "*"
tokio = { version = "*", features = ["rt-multi-thread", "macros"] }
tokio-stream = "*"
reqwest = { version = "*", default-features = false, features = ["stream"] }
