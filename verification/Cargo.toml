[package]
name = "bailbridge"
version = "0.1.0"
edition = "2021"
publish = false

[dependencies]
argon2 = "=0.5.3"
password-hash = { version = "=0.5.0", features = ["std"] }
jsonwebtoken = "=9.3.1"
base64 = "=0.22.1"
chrono = "=0.4.45"
uuid = { version = "=1.27.0", features = ["v4"] }
rand = "=0.8.8"
serde = { version = "1", features = ["derive"] }
axum = "0.7"
tokio = { version = "1", features = ["rt-multi-thread", "macros", "net"] }
