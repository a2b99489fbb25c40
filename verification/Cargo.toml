[package]
name = "session_cache"
version = "0.1.0"
edition = "2021"
publish = false

[dependencies]
uuid = { version = "*", features = ["v4"] }
chrono = "*"
fastbloom-rs = "*"
serde_json = "*"
serde = { version = "*", features = ["derive"] }
cookie = { version = "*", features = ["private"] }
aes-gcm = "*"
redis = { version = "*", default-features = false }
axum = "*"
http = "*"
http-body = "*"
bytes = "*"
futures = "*"
tower-layer = "*"
tower-service = "*"

[dev-dependencies]
