[package]
name = "zerohub"
version = "0.1.0"
edition = "2021"
publish = false

[dependencies]
zip = "*"
percent-encoding = "*"
uuid = { version = "*", features = ["v4"] }
chrono = "*"
serde = { version = "*", features = ["derive"] }
serde_json = "*"
axum = "*"
tokio = { version = "*", features = ["rt-multi-thread", "macros", "net"] }
tower = "*"
tower-http = { version = "*", features = ["fs", "trace"] }
tracing-subscriber = "*"
