[package]
name = "rt-doubao"
version = "0.1.0"
edition = "2021"
publish = false

[dependencies]
clap = { version = "4", features = ["derive"] }
cpal = "0.15"
embedded-websocket = "0.9"
native-tls = "0.2"
rodio = { version = "0.19", default-features = false }
serde = { version = "1", features = ["derive"] }
serde_json = "1"
url = "2"
uuid = { version = "1", features = ["v4"] }
