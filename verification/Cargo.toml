[package]
name = "bridge"
version = "0.1.0"
edition = "2021"
publish = false

[dependencies]
rand = "0.8"
regex = "1"
serde = { version = "1", features = ["derive"] }
serde_json = "1"
local-ip-address = "0.6"
sysinfo = "0.30"
axum = { version = "0.7", features = ["ws"] }
tokio = { version = "1", features = ["full"] }
tower-http = { version = "0.5", features = ["cors"] }
futures = "0.3"
async-stream = "0.3"
scopeguard = "1"
