[package]
name = "codercar"
version = "0.1.0"
edition = "2021"
publish = false

[dependencies]
futures-channel = "*"
futures-util = "*"
local_ipaddress = "*"
rppal = "*"
serde = { version = "*", features = ["derive"] }
serde_json = "*"
tokio = { version = "*", features = ["rt-multi-thread", "net", "macros", "time", "sync"] }
tokio-tungstenite = "*"
tungstenite = "*"
