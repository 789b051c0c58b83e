[package]
name = "boenmind"
version = "0.1.0"
edition = "2021"
publish = false

[dependencies]
sha2 = "=0.11.1"
fancy-regex = "=0.20.0"
url = "=2.5.8"
serde = { version = "=1.0.229", features = ["derive"] }
serde_json = "=1.0.154"
tracing = "=0.1.44"
tracing-subscriber = { version = "=0.3.23", features = ["env-filter", "fmt"] }
uuid = { version = "=1.29.0", features = ["v4"] }
tempfile = "=3.27.0"
tokio = { version = "=1.54.1", features = ["rt-multi-thread", "macros", "time", "fs", "io-util", "sync", "process"] }
reqwest = { version = "=0.12.28", default-features = false, features = ["json", "multipart", "stream", "rustls-tls"] }
lopdf = "=0.46.0"
image = { version = "=0.25.10", default-features = false, features = ["png", "jpeg"] }
zip = { version = "=9.2.2", default-features = false, features = ["deflate"] }
base64 = "=0.22.1"
thiserror = "=2.0.21"
ignore = "0.4"
