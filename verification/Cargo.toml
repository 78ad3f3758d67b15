[package]
name = "corner_store"
version = "0.1.0"
edition = "2021"
publish = false

[dependencies]
sled = "=0.34.7"
rand = "=0.8.8"
chrono = "=0.4.45"
serde = { version = "1", features = ["derive"] }
serde_json = "1"
tokio = { version = "1", features = ["full"] }
warp = { version = "=0.3.7", features = ["tls"] }
telegram_types = "*"
