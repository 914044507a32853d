[package]
name = "lay"
version = "0.1.0"
edition = "2021"
publish = false

[dependencies]
base64 = "*"
ring = "*"
serde = { version = "*", features = ["derive"] }
serde_json = "*"
axum = "*"
tokio = { version = "*", features = ["macros", "rt-multi-thread", "sync", "time"] }
reqwest = { version = "*", default-features = false }
crossterm = "*"
ratatui = "*"
