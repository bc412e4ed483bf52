[package]
name = "race_reminder"
version = "0.1.0"
edition = "2021"
publish = false

[dependencies]
anyhow = "*"
chrono = "*"
futures = "*"
reqwest = { version = "*", default-features = false, features = ["json"] }
serde = { version = "*", features = ["derive"] }
serde-aux = "*"
serde_json = "*"
telegram-bot = "*"
tokio = { version = "*", features = ["rt-multi-thread", "macros", "time"] }
