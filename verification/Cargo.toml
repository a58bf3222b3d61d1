[package]
name = "oss_sdk"
version = "0.1.0"
edition = "2021"
publish = false

[dependencies]
anyhow = "*"
base64 = "*"
chrono = "*"
dotenvy = "*"
hmac = "*"
reqwest = { version = "*", default-features = false, features = ["blocking"] }
serde = { version = "*", features = ["derive"] }
serde_json = "*"
sha1 = "*"
thiserror = "*"
tracing = "*"
tracing-subscriber = "*"
urlencoding = "*"
