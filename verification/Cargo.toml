[package]
name = "kubelet_runtime"
version = "0.1.0"
edition = "2021"
publish = false

[dependencies]
anyhow = "1"
axum = "0.7"
bollard = "0.18"
chrono = "0.4"
clap = { version = "4", features = ["derive"] }
futures = "0.3"
futures-util = "0.3"
http = "1"
libc = "0.2"
prost = "0.13"
reqwest = { version = "0.12", default-features = false, features = ["rustls-tls"] }
serde_json = "1"
tokio = { version = "1", features = ["full"] }
tonic = "0.12"
tracing = "0.1"
tracing-subscriber = "0.3"
uuid = { version = "1", features = ["v4"] }
