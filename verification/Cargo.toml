[package]
name = "paybar"
version = "0.1.0"
edition = "2021"
publish = false

[dependencies]
anyhow = "1"
chrono = "0.4"
clap = { version = "4", features = ["derive"] }
crossterm = "0.28"
ratatui = "0.29"
rusqlite = { version = "*", features = ["bundled"] }
serde_json = "1"
ureq = "3"
