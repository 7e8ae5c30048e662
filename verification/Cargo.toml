[package]
name = "turbo_tasks_backend"
version = "0.1.0"
edition = "2021"
publish = false

[dependencies]
anyhow = "1"
mime = "0.3"
serde = { version = "1", features = ["derive"] }
serde_json = "1"
urlencoding = "2"
