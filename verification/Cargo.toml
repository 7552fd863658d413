[package]
name = "chilsonite"
version = "0.1.0"
edition = "2021"
publish = false

[dependencies]
anyhow = "1.0.95"
base64 = "0.21.5"
config = "0.15.8"
dashmap = "6.1.0"
env_logger = "0.11.6"
futures = "0.3.31"
log = "0.4.25"
machine-uid = "0.5.3"
rand = "0.9.0"
serde = { version = "1.0", features = ["derive"] }
serde_json = "1.0"
tokio = { version = "1", features = ["full"] }
tokio-tungstenite = "0.20.1"
ureq = { version = "3.0.5", features = ["json"] }
url = "2.5.4"
uuid = { version = "1", features = ["v4"] }
