[package]
name = "exchange_gateway"
version = "0.1.0"
edition = "2021"
publish = false

[dependencies]
anyhow = "1"
axum = "0.6"
base64 = "0.21"
bytes = "1"
chrono = "0.4"
futures = "0.3"
hmac = "0.12"
hyper = { version = "0.14", features = ["full"] }
hyper-rustls = "0.24"
icalendar = "*"
quick-xml = "0.31"
rrule = "*"
serde = { version = "1", features = ["derive"] }
sha2 = "0.10"
sqlx = { version = "0.7", default-features = false, features = ["sqlite", "runtime-tokio"] }
tokio = { version = "1", features = ["full"] }
toml = "0.8"
tracing = "0.1"
tracing-subscriber = "0.3"
url = "2"
uuid = { version = "1", features = ["v4"] }
