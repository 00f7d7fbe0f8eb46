[package]
name = "novawm"
version = "0.1.0"
edition = "2021"
publish = false

[dependencies]
anyhow = "=1.0.104"
clap = { version = "=4.6.7", features = ["derive"] }
home = "=0.5.12"
serde = { version = "=1.0.229", features = ["derive"] }
serde_json = "=1.0.154"
tokio = { version = "=1.54.1", features = ["rt"] }
tracing = "=0.1.44"
uuid = { version = "=1.29.0", features = ["serde"] }
