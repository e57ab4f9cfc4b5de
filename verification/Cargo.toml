[package]
name = "chat_client"
version = "0.1.0"
edition = "2021"
publish = false

[dependencies]
async-std = { version = "=1.13.2", features = ["unstable"] }

[dev-dependencies]
serde_json = "1"
