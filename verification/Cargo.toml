[package]
name = "chatbot_rs"
version = "0.1.0"
edition = "2021"
publish = false

[dependencies]
serde = { version = "*", features = ["derive"] }
serde_json = "*"
reqwest = { version = "*", default-features = false, features = ["json"] }
rusqlite = { version = "*", features = ["bundled", "load_extension"] }
