[package]
name = "xs"
version = "0.1.0"
edition = "2021"
publish = false

[dependencies]
anyhow = "1"
base64 = "0.13"
clap = { version = "3.2", features = ["derive"] }
rusqlite = { version = "*", features = ["bundled"] }
serde = { version = "1", features = ["derive"] }
serde_json = "1"
