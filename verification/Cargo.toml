[package]
name = "game-server"
version = "0.1.0"
edition = "2021"
publish = false

[dependencies]
rand = "0.5"
redis = "0.9"
serde = { version = "1", features = ["derive"] }
serde_json = "1"
ticker = "0.1"
uuid = { version = "0.7", features = ["v4"] }
