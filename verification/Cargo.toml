[package]
name = "mallard_metrics"
version = "0.1.0"
edition = "2021"
publish = false

[dependencies]
argon2 = "=0.6.0"
axum = "=0.8.9"
chrono = "=0.4.45"
hex = "=0.4.3"
hmac = "=0.13.0"
maxminddb = "*"
parking_lot = "*"
rand = "=0.10.3"
serde = { version = "*", features = ["derive"] }
serde_json = "*"
sha2 = "=0.11.0"
tokio = { version = "*", features = ["rt-multi-thread", "macros", "net", "signal", "time"] }
toml = "*"
tower-http = { version = "*", features = ["cors", "trace", "timeout"] }
tracing = "*"
tracing-subscriber = { version = "*", features = ["env-filter", "json"] }
uuid = { version = "*", features = ["v4"] }

[dev-dependencies]
tempfile = "*"
