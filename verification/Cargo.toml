[package]
name = "reflex"
version = "0.1.0"
edition = "2021"
publish = false

[dependencies]
anyhow = "1"
async-trait = "0.1"
bytes = "1"
futures-util = "0.3"
libc = "0.2"
quinn = { version = "0.11", default-features = false, features = ["runtime-tokio", "rustls-ring"] }
reqwest = { version = "0.12", default-features = false, features = ["stream", "rustls-tls"] }
serde = { version = "1", features = ["derive"] }
serde_yaml = "0.9"
socket2 = { version = "0.5", features = ["all"] }
tokio = { version = "1", features = ["full"] }
tokio-stream = "0.1"
tracing = "0.1"
tun = { version = "0.6", features = ["async"] }
uuid = { version = "1", features = ["v4"] }
