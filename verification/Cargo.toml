[package]
name = "dcss_bot"
version = "0.1.0"
edition = "2021"
publish = false

[dependencies]
flate2 = "1"
chrono = "0.4"
tokio = { version = "1", features = ["full"] }
tokio-tungstenite = "*"
futures-util = "0.3"
rustyline-async = "*"

[dev-dependencies]
serde_json = "1"
