[package]
name = "codex_kernel"
version = "0.1.0"
edition = "2021"
publish = false

[dependencies]
anyhow = "1"
axum = { version = "0.8", default-features = false }
dirs = "6"
dunce = "1"
schemars = "0.8"
serde = { version = "1", features = ["derive"] }
serde_json = "1"
thiserror = "2"
tokio = { version = "1", features = ["fs", "rt", "sync"] }
tracing = "0.1"
ts-rs = "11"
url = "2"
urlencoding = "2"

[dev-dependencies]
tempfile = "3"
