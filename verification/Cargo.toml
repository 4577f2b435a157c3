[package]
name = "websocket"
version = "0.1.0"
edition = "2021"
publish = false

[dependencies]
byteorder = "1"
rand = "0.8"
rustc-serialize = "0.3"
url = "2"
unicase = "2"
