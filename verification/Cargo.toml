[package]
name = "nero"
version = "0.1.0"
edition = "2021"
publish = false

[dependencies]
anitomy = "=0.2.0"
mime_guess = "=2.0.5"
mime = "=0.3.17"
infer = "=0.22.0"
url = "=2.5.8"
http = "=1.5.0"
bytes = "=1.12.1"
semver = "=1.0.28"
anyhow = "=1.0.104"
thiserror = "=2.0.21"
serde = { version = "=1.0.229", features = ["derive"] }
tokio = { version = "=1.53.2", features = ["rt", "net", "time", "sync", "macros", "io-util"] }
axum = "=0.8.9"
reqwest = { version = "=0.13.5", default-features = false }
wit-component = "*"
