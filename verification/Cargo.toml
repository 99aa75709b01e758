[package]
name = "ocu"
version = "0.1.0"
edition = "2021"
publish = false

[dependencies]
anyhow = "1"
chrono = "0.4"
chrono-tz = "0.10"
ratatui = "*"
serde = { version = "1", features = ["derive"] }
serde_json = "1"
thiserror = "2"
