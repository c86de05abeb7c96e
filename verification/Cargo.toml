[package]
name = "hdds_tools"
version = "0.1.0"
edition = "2021"
publish = false

[dependencies]
chrono = "*"
serde = { version = "*", features = ["derive"] }
serde_json = "*"
serde_yaml = "*"
tokio = { version = "*", features = ["rt-multi-thread", "net", "io-util", "sync", "time", "macros"] }
clap = { version = "*", features = ["derive"] }
anyhow = "*"
ctrlc = "*"
