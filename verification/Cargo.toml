[package]
name = "aish"
version = "0.1.0"
edition = "2021"
publish = false

[dependencies]
unicode-width = "0.2"
getrandom = "0.3"
serde = { version = "1", features = ["derive"] }
serde_json = "1"
toml = "*"
anyhow = "1"
dirs = "*"

[dev-dependencies]
tempfile = "3"
