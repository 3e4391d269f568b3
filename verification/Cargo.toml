[package]
name = "tng_ingress"
version = "0.1.0"
edition = "2021"
publish = false

[dependencies]
anyhow = "1"
axum = "0.8"
cidr = { version = "0.3", features = ["serde"] }
http = "1"
regex = "1"
reqwest = { version = "0.12", default-features = false, features = ["stream"] }
serde = { version = "1", features = ["derive"] }
serde_with = "3"
tokio = { version = "1", features = ["macros", "net", "rt-multi-thread", "sync"] }
tokio-util = "0.7"
tracing = "0.1"
url = "2"

[dev-dependencies]
serde_json = "1"
