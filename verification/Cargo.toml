[package]
name = "botcore"
version = "0.1.0"
edition = "2021"
publish = false

[dependencies]
rusqlite = { version = "*", features = ["bundled"] }
rand = "0.8"
tokio = { version = "0.2", features = ["full"] }
telegram-bot = "0.8"
