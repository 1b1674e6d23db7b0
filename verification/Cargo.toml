[package]
name = "skillgate"
version = "0.1.0"
edition = "2021"
publish = false

[dependencies]
anyhow = "*"
clap = { version = "*", features = ["derive"] }
dirs = "*"
dunce = "*"
serde = { version = "*", features = ["derive"] }
serde_json = "*"
