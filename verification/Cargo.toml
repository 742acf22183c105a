[package]
name = "r2iac"
version = "0.1.0"
edition = "2021"
publish = false

[dependencies]
anyhow = "1"
age = "0.10"
clap = { version = "4", features = ["derive"] }
secrecy = "0.8"
serde = { version = "1", features = ["derive"] }
serde_json = "1"
serde_yaml = "0.9"
tracing-subscriber = { version = "0.3", features = ["fmt", "json"] }
which = "6"
