[package]
name = "tinyweb"
version = "0.1.0"
edition = "2021"
publish = false

[dependencies]
anyhow = "1"
axum = { version = "0.7", features = ["ws"] }
env_logger = "0.11"
futures-util = "0.3"
http = "1"
log = "0.4"
mime_guess = "2"
moka = { version = "0.12", features = ["future"] }
regex = "1"
reqwest = { version = "0.12", default-features = false, features = ["stream", "gzip", "brotli", "deflate", "zstd"] }
serde = { version = "1", features = ["derive"] }
serde_yaml = "0.9"
tokio = { version = "1", features = ["full"] }
tokio-tungstenite = "0.24"
tower = { version = "0.5", features = ["util"] }
tower-http = { version = "0.6", features = ["fs", "compression-full"] }
wol-rs = "*"
