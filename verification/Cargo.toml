[package]
name = "rustboard"
version = "0.1.0"
edition = "2021"
publish = false

[dependencies]
serde = { version = "1", features = ["derive"] }
serde_json = "=1.0.154"
serde_yaml = "0.9"
anyhow = "1"
tokio = { version = "1", features = ["full"] }
axum = { version = "0.6", features = ["ws"] }
hyper = { version = "0.14", features = ["full"] }
futures = "0.3"
tokio-stream = { version = "0.1", features = ["sync"] }
tracing = "0.1"
tracing-subscriber = "0.3"
reqwest = { version = "0.11", default-features = false, features = ["json", "rustls-tls"] }
clap = { version = "4", features = ["derive"] }
extism = { version = "=1.21.0", default-features = false }
extism-pdk = "1"
