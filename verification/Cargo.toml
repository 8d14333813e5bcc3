[package]
name = "minikafka"
version = "0.1.0"
edition = "2021"
publish = false

[dependencies]
config = "*"
memmap2 = "*"
serde = { version = "*", features = ["derive"] }
serde_json = "*"
thiserror = "*"
tokio = { version = "*", features = ["full"] }
