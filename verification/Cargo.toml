[package]
name = "blrec"
version = "0.1.0"
edition = "2021"
publish = false

[dependencies]
anyhow = "1"
api_req = { version = "=0.5.2", features = ["cookies"] }
chrono = "=0.4.45"
clap = { version = "4", features = ["derive"] }
cookie = { version = "=0.18.2", features = ["percent-encode"] }
ffmpeg-next = "=8.1.0"
futures-util = "0.3"
qrcode = { version = "=0.14.1", default-features = false }
reqwest = { version = "=0.13.5", features = ["stream"] }
serde = { version = "1", features = ["derive"] }
serde_json = "1"
thiserror = "2"
tokio = { version = "1", features = ["full"] }
tokio-util = "0.7"
tracing = "0.1"
tracing-subscriber = { version = "0.3", features = ["env-filter"] }
url = { version = "=2.5.8", features = ["serde"] }
