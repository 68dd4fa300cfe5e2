[package]
name = "maul"
version = "0.1.0"
edition = "2021"
publish = false

[dependencies]
serde_json = "1"
rust_decimal = "1"
serde = { version = "1", features = ["derive"] }
serde_yaml = "0.9"
thiserror = "2"
axum = "0.8"
reqwest = { version = "0.12", default-features = false, features = ["stream"] }
tokio = { version = "1", features = ["full"] }
tracing = "0.1"
tracing-subscriber = { version = "0.3", features = ["env-filter"] }
clap = { version = "4", features = ["derive"] }
rand = "*"
bytes = "1"
futures-util = "0.3"
pin-project-lite = "0.2"
