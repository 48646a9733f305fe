[package]
name = "message_entities"
version = "0.1.0"
edition = "2021"
publish = false

[dependencies]
reqwest = { version = "0.11", default-features = false }
mime = "0.3"
serde = { version = "1", features = ["derive"] }
serde_with_macros = "1"
