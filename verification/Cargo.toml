[package]
name = "relay"
version = "0.1.0"
edition = "2021"
publish = false

[dependencies]
serde_json = "*"
uuid = { version = "*", features = ["v4"] }
tokio = { version = "*", features = ["full"] }
axum = { version = "*", features = ["ws"] }
sqlx = { version = "*", default-features = false, features = ["runtime-tokio", "sqlite"] }
futures-util = "*"
serde = { version = "*", features = ["derive"] }
tracing = "*"
tracing-subscriber = "*"
tower-http = { version = "*", features = ["cors"] }
