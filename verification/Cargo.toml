[package]
name = "wordle_core"
version = "0.1.0"
edition = "2021"
publish = false

[dependencies]
actix-web = "*"
actix-cors = "*"
env_logger = "*"
serde = { version = "*", features = ["derive"] }
serde_json = "*"
