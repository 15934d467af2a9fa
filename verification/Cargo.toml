[package]
name = "taste"
version = "0.1.0"
edition = "2021"
publish = false

[dependencies]
chrono = "0.4"
serde = { version = "1", features = ["derive"] }
serde_json = "1"
rusqlite = { version = "0.31", features = ["bundled"] }
ureq = "2"
uuid = { version = "1", features = ["v4"] }
keyring = { version = "2", default-features = false }
