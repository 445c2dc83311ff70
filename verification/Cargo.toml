[package]
name = "smoothie"
version = "0.1.0"
edition = "2021"
publish = false

[dependencies]
tar = "0.4"
sha2 = "0.10"
urlencoding = "2"
serde_json = "1"
serde = { version = "1", features = ["derive"] }
dashmap = "6"
reqwest = { version = "0.12", default-features = false }
chrono = "0.4"
uuid = { version = "1", features = ["v4"] }
rand = "0.9"
