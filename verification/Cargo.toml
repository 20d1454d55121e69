[package]
name = "multiplexing_stream"
version = "0.1.0"
edition = "2021"
publish = false

[dependencies]
rmp = "=0.8.15"
bytes = "=1.12.1"
tokio = { version = "=1.54.1", features = ["full"] }
tokio-util = { version = "=0.7.20", features = ["compat"] }
futures = "=0.3.34"
tokio-rustls = "=0.24.1"
rustls-pemfile = "=1.0.4"
async-tungstenite = { version = "=0.29.1", features = ["tokio-runtime"] }
ws_stream_tungstenite = "=0.15.0"
