[package]
name = "zk_rwa_prover"
version = "0.1.0"
edition = "2021"
publish = false

[dependencies]
async-std = "=1.13.2"
async-tungstenite = { version = "=0.29.1", features = ["tokio-runtime"] }
axum = { version = "=0.8.9", features = ["ws"] }
chrono = "=0.4.45"
eyre = "=0.6.14"
http = "=1.5.0"
http-body-util = "=0.1.5"
hyper = { version = "=1.12.0", features = ["client", "http1", "server"] }
hyper-util = { version = "=0.1.21", features = ["full"] }
rangeset = "=0.4.1"
serde_json = "=1.0.154"
tokio = { version = "=1.54.1", features = ["full"] }
tokio-util = { version = "=0.7.20", features = ["compat"] }
tower-service = "=0.3.3"
tracing = "=0.1.44"
tracing-subscriber = { version = "=0.3.23", features = ["env-filter"] }
ws_stream_tungstenite = { version = "=0.15.0", features = ["tokio_io"] }
wstcp = "=0.2.1"
