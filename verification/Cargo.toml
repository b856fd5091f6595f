[package]
name = "web_server"
version = "0.1.0"
edition = "2021"
publish = false

[dependencies]
base64 = "=0.22.1"
chrono = "=0.4.45"
fastrand = "=2.5.0"
subtle = "=2.6.1"
actix-web = "=4.18.1"
actix-cors = "0.7"
dotenvy = "0.15"
env_logger = "0.11"
serde = { version = "=1.0.229", features = ["derive"] }
serde_json = "=1.0.154"
tokio = { version = "=1.54.1", features = ["full"] }
tracing = "=0.1.44"
uuid = { version = "=1.29.0", features = ["v4"] }
sqlx = { version = "=0.8.6", default-features = false, features = ["runtime-tokio", "postgres", "macros"] }
