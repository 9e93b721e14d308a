[package]
name = "chat_ui"
version = "0.1.0"
edition = "2021"
publish = false

[dependencies]
anyhow = "=1.0.104"
async-openai = { version = "=0.42.1", features = ["chat-completion"] }
async-stream = "=0.3.6"
async-trait = "=0.1.92"
axum = { version = "=0.8.9", features = ["ws", "multipart"] }
base64 = "=0.22.1"
blake3 = "=1.8.7"
chrono = "=0.4.45"
clap = { version = "=4.6.7", features = ["derive"] }
futures = "=0.3.34"
htmd = "=0.5.5"
image = { version = "=0.25.10", default-features = false, features = ["png", "jpeg", "gif", "webp", "bmp"] }
infer = "=0.22.0"
mime = "=0.3.17"
qrcode = "=0.14.1"
redb = "=4.3.0"
reqwest = { version = "=0.12.28", default-features = false, features = ["blocking", "json", "rustls-tls"] }
resvg = "=0.48.1"
rqrr = "=0.11.0"
serde = { version = "=1.0.229", features = ["derive"] }
serde_json = "=1.0.151"
serde_yaml = "=0.9.34"
sled = "=0.34.7"
tokio = { version = "=1.53.2", features = ["full"] }
tokio-util = "=0.7.19"
tower-http = { version = "=0.6.11", features = ["cors", "limit"] }
uuid = { version = "=1.27.0", features = ["v4", "v7"] }
whatlang = "=0.18.0"
