[package]
name = "cardsheets"
version = "0.1.0"
edition = "2021"
publish = false

[dependencies]
md5 = "0.7"
serde_json = "1"
clap = { version = "4", features = ["derive"] }
reqwest = "0.12"
tokio = { version = "1", features = ["full"] }
