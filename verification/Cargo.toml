[package]
name = "socketio_server"
version = "0.1.0"
edition = "2021"
publish = false

[dependencies]
base64 = "0.13"
serde_json = "1"
bytes = "*"
futures-util = "*"
tokio = { version = "1", features = ["rt-multi-thread", "net", "time", "io-util", "sync", "macros"] }
tokio-tungstenite = "*"
tungstenite = "*"
