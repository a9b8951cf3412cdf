[package]
name = "pluriview"
version = "0.1.0"
edition = "2021"
publish = false

[dependencies]
serde = { version = "*", features = ["derive"] }
serde_json = "*"
directories = "*"
parking_lot = "*"
log = "*"
env_logger = "*"
