[package]
name = "wsaas"
version = "0.1.0"
edition = "2021"
publish = false

[dependencies]
env_logger = "0.11"
futures-channel = "0.3"
futures-util = { version = "0.3", features = ["sink"] }
hyper = { version = "0.14", features = ["full"] }
hyper-tls = "0.5"
isahc = "1"
log = "0.4"
rand = "0.8"
tokio = { version = "1", features = ["full"] }
tokio-tungstenite = "0.21"
tungstenite = "0.21"
uuid = { version = "1", features = ["v4"] }
