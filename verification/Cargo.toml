[package]
name = "sd2"
version = "0.1.0"
edition = "2021"
publish = false

[dependencies]
regex = "*"
memchr = "*"
globset = "*"
serde = { version = "*", features = ["derive"] }
serde_json = "*"
anyhow = "*"
