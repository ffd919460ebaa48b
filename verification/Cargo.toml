[package]
name = "simple_docker_manager"
version = "0.1.0"
edition = "2021"
publish = false

[dependencies]
argon2 = "*"
uuid = { version = "*", features = ["v4"] }
serde = { version = "*", features = ["derive"] }
serde_json = "*"
tokio = { version = "*", features = ["full"] }
axum = { version = "*", features = ["ws"] }
bollard = "*"
chrono = "*"
dotenvy = "*"
envy = "*"
futures-util = "*"
html-escape = "*"
tower-http = { version = "*", features = ["fs", "trace"] }
tracing = "*"
tracing-subscriber = { version = "*", features = ["env-filter"] }
urlencoding = "*"
