[package]
name = "hsk_practice"
version = "0.1.0"
edition = "2021"
publish = false

[dependencies]
rand = "=0.10.3"
crossterm = "=0.29.0"
dialoguer = { version = "=0.12.0", features = ["fuzzy-select"] }
serde = { version = "=1.0.229", features = ["derive"] }
serde_json = "=1.0.151"
