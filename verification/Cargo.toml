[package]
name = "allure_runs"
version = "0.1.0"
edition = "2021"
publish = false

[dependencies]
zip = { version = "*", default-features = false, features = ["deflate"] }
serde = { version = "*", features = ["derive"] }
serde_json = "*"
tokio = { version = "*", features = ["full"] }
axum = { version = "*", features = ["multipart"] }
tower = { version = "*", features = ["util"] }
tower-http = { version = "*", features = ["fs", "trace", "request-id"] }
http = "*"
anyhow = "*"
dashmap = "*"
tracing = "*"
tracing-subscriber = { version = "*", features = ["env-filter"] }
