[package]
name = "nel_reporter"
version = "0.1.0"
edition = "2021"
publish = false

[dependencies]
chrono = "*"
fastly = "*"
serde = "*"
serde_json = "*"
