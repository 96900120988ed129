[package]
name = "order_repo"
version = "0.1.0"
edition = "2021"
publish = false

[dependencies]
uuid = { version = "=1.27.0", features = ["v4", "serde"] }
axum = "=0.6.20"
tokio = { version = "=1.53.2", features = ["macros", "rt-multi-thread"] }
tower = { version = "=0.4.13", features = ["timeout"] }
tower-http = { version = "=0.4.4", features = ["trace"] }
tracing = "=0.1.44"
tracing-subscriber = "=0.3.23"
dotenv = "=0.15.0"
serde = { version = "=1.0.229", features = ["derive"] }
serde_json = "=1.0.151"
