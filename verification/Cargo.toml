[package]
name = "herder"
version = "0.1.0"
edition = "2021"
publish = false

[dependencies]
chrono = "*"
tokio = { version = "*", features = ["full"] }
axum = "*"
http = "*"
reqwest = { version = "*", default-features = false, features = ["json", "stream"] }
serde = { version = "*", features = ["derive"] }
serde_json = "*"
clap = { version = "*", features = ["derive"] }
anyhow = "*"
thiserror = "*"
daemonize = "*"
schemars = "*"
tokio-stream = { version = "*", features = ["sync"] }
