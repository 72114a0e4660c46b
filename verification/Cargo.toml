[package]
name = "ws_bytes"
version = "0.1.0"
edition = "2021"
publish = false

[dependencies]
tungstenite = { version = "*", default-features = false }
futures-core = "*"
futures-io = "*"
futures-util = { version = "*", default-features = false, features = ["sink"] }
tokio = { version = "*", default-features = false }
