[package]
name = "bifur_core"
version = "0.1.0"
edition = "2021"
publish = false

[dependencies]
anyhow = "1"
dirs = "*"
mime_guess = "2"
notify = "*"
portable-pty = "*"
regex = "1"
serde = { version = "1", features = ["derive"] }
