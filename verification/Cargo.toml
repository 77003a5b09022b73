[package]
name = "hearsay"
version = "0.1.0"
edition = "2021"
publish = false

[dependencies]
uuid = { version = "1", features = ["v4"] }
tokio = { version = "1", features = ["full"] }
serde = { version = "1", features = ["derive"] }
serde_json = "1"
postcard = { version = "1", features = ["alloc"] }
socket2 = { version = "0.5", features = ["all"] }
enum2contract = "*"
futures-util = { version = "0.3", features = ["sink"] }
tokio-tungstenite = "*"
