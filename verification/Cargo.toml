[package]
name = "aionbot"
version = "0.1.0"
edition = "2021"
publish = false

[dependencies]
anyhow = "*"
colored = "*"
fern = "*"
futures = "*"
futures-util = "*"
log = "*"
serde = { version = "*", features = ["derive"] }
serde_json = "*"
state = "*"
tokio = { version = "*", features = ["full"] }
tokio-tungstenite = "*"
