[package]
name = "llm_edge"
version = "0.1.0"
edition = "2021"
publish = false

[dependencies]
blake3 = "*"
axum = "*"
reqwest = { version = "*", default-features = false, features = ["json"] }
serde = { version = "*", features = ["derive"] }
serde_json = "*"
tokio = { version = "*", features = ["rt-multi-thread", "macros", "net"] }
tracing = "*"
tracing-subscriber = "*"
