[package]
name = "multimint"
version = "0.1.0"
edition = "2021"
publish = false

[dependencies]
anyhow = "1"
axum = "0.7"
axum-macros = "0.4"
dotenv = "0.15"
fedimint-api-client = "=0.6.2"
fedimint-client = "=0.6.2"
fedimint-core = "=0.6.2"
fedimint-mint-client = "=0.6.2"
futures-util = "0.3"
lazy_static = "1"
rand = "0.8"
serde = { version = "1", features = ["derive"] }
serde_json = "1"
tokio = { version = "1", features = ["full"] }
tracing = "0.1"
tracing-subscriber = "0.3"
