[package]
name = "chatroom-bridge"
version = "0.1.0"
edition = "2021"
publish = false

[dependencies]
aes = "=0.8.4"
async-trait = "=0.1.92"
axum = { version = "=0.8.9", default-features = false, features = ["form", "http1", "matched-path", "original-uri", "query", "tokio", "tower-log", "tracing", "ws"] }
base64 = "=0.22.1"
chrono = "=0.4.45"
flate2 = "=1.1.10"
futures-util = "=0.3.34"
headless_chrome = "=1.0.22"
hex = "=0.4.3"
image = { version = "=0.25.10", default-features = false, features = ["jpeg", "png", "gif", "webp", "bmp"] }
indexmap = { version = "=2.14.2", features = ["serde"] }
regex = "=1.13.1"
reqwest = { version = "=0.12.28", default-features = false, features = ["json", "multipart", "rustls-tls"] }
serde = { version = "=1.0.229", features = ["derive"] }
serde_json = { version = "=1.0.154", features = ["preserve_order"] }
sha2 = "=0.10.9"
tar = "=0.4.46"
tempfile = "=3.27.0"
thiserror = "=2.0.21"
tokio = { version = "=1.54.1", features = ["full"] }
tracing = "=0.1.44"
tracing-subscriber = { version = "=0.3.23", features = ["env-filter"] }
