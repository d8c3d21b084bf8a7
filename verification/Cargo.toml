[package]
name = "mcp_core"
version = "0.1.0"
edition = "2021"
publish = false

[dependencies]
axum = "=0.8.9"
axum-extra = { version = "=0.10.3", features = ["cookie-signed"] }
base64 = "=0.22.1"
clap = { version = "=4.6.7", features = ["derive", "env"] }
futures = "=0.3.34"
include_dir = "=0.7.4"
rand = "=0.9.5"
rmcp = { version = "=3.8.0", features = ["server", "client", "transport-child-process", "transport-streamable-http-client-reqwest"] }
serde = { version = "=1.0.229", features = ["derive"] }
serde_json = "=1.0.154"
subtle = "=2.6.1"
tokio = { version = "=1.54.1", features = ["full"] }
tokio-stream = "=0.1.19"
tokio-util = "=0.7.20"
tower = { version = "=0.5.3", features = ["util"] }
tower-http = { version = "=0.6.11", features = ["compression-gzip", "fs"] }
tracing = "=0.1.44"
