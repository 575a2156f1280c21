[package]
name = "example-monitoring-web"
version = "0.1.0"
edition = "2021"
publish = false

[dependencies]
axum = "0.7"
hex = "0.4"
hmac = "0.12"
minijinja = { version = "2", features = ["loader"] }
pbkdf2 = "0.12"
rand = "0.8"
regex = "1"
rusqlite = { version = "0.31", features = ["bundled"] }
serde_json = "1"
sha2 = "0.10"
subtle = "2"
tokio = { version = "1", features = ["full"] }
tracing = "0.1"
tracing-subscriber = { version = "0.3", features = ["env-filter"] }
url = "2"
