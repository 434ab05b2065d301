[package]
name = "argo"
version = "0.1.0"
edition = "2021"
publish = false

[dependencies]
hex = "0.4.3"
borsh = { version = "1.8.1", features = ["derive"] }
serde = { version = "1.0.229", features = ["derive"] }
anyhow = "1.0.104"
