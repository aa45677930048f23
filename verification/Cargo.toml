[package]
name = "sigil"
version = "0.1.0"
edition = "2021"
publish = false

[dependencies]
chrono = "0.4"
globset = "0.4"
serde = "1"
serde_json = "1"
similar = "2"
toml = { version = "0.8", features = ["preserve_order"] }
walkdir = "2"
