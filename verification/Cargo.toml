[package]
name = "maleme"
version = "0.1.0"
edition = "2021"
publish = false

[dependencies]
serde = { version = "1", features = ["derive"] }
serde_json = "1"
time = "0.3"
thiserror = "2"
tokio = { version = "1", features = ["rt-multi-thread", "macros"] }
rusqlite = { version = "*", features = ["bundled"] }
indicatif = "*"
