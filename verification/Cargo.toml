[package]
name = "memds"
version = "0.1.0"
edition = "2021"
publish = false

[dependencies]
tokio = { version = "1", features = ["full"] }
futures = "0.3"
serde = { version = "1", features = ["derive"] }
bincode = "1"
anyhow = "1"
deseresp = "*"
