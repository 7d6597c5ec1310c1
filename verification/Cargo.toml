[package]
name = "rustyai"
version = "0.1.0"
edition = "2021"
publish = false

[dependencies]
futures = "*"
reqwest = { version = "*", default-features = false, features = ["stream"] }
serde_json = "*"
tokio = { version = "*", features = ["sync", "rt"] }
toml = "*"
