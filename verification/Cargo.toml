[package]
name = "relay_fanout"
version = "0.1.0"
edition = "2021"
publish = false

[dependencies]
reqwest = { version = "*", default-features = false }
serde = { version = "*", features = ["derive"] }
serde_json = "*"
tokio = { version = "*", features = ["rt", "sync", "macros", "time"] }
futures = "*"
metrics = "*"
tracing = "*"
axum = "*"
sigh = "*"
