[package]
name = "sankshepa"
version = "0.1.0"
edition = "2021"
publish = false

[dependencies]
anyhow = "*"
axum = "*"
chrono = "*"
clap = { version = "4", features = ["derive"] }
futures-util = "*"
postcard = { version = "1", features = ["alloc"] }
serde = { version = "1", features = ["derive"] }
serde_json = "*"
tokio = { version = "1", features = ["full"] }
tokio-stream = { version = "*", features = ["sync"] }
tracing = "*"
tracing-subscriber = "*"
zstd = "*"
