[package]
name = "maolan_plugins"
version = "0.1.0"
edition = "2021"
publish = false

[dependencies]
sha2 = "0.10"
rand = "0.9"
serde = { version = "1", features = ["derive"] }
serde_json = "1"
