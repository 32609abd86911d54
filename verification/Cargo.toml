[package]
name = "fwp"
version = "0.1.0"
edition = "2021"
publish = false

[dependencies]
regex = "1"
serde = { version = "1", features = ["derive"] }
serde_json = "1"
axum = "*"
tokio = { version = "1", features = ["full"] }
libc = "0.2"
parking_lot = "*"
futures-util = "*"
tracing = "*"
rusqlite = { version = "*", features = ["bundled"] }
