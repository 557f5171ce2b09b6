[package]
name = "tabs"
version = "0.1.0"
edition = "2021"
publish = false

[dependencies]
heapless = "0.8.0"
serde = { version = "1", features = ["derive"] }
serde_json = "1"
