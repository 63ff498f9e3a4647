[package]
name = "sloppy"
version = "0.1.0"
edition = "2021"
publish = false

[dependencies]
regex = "1"
toml = "0.8"
serde = { version = "1", features = ["derive"] }
serde_json = "1"
clap = { version = "4", features = ["derive"] }
