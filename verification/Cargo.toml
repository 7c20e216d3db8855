[package]
name = "apiflow"
version = "0.1.0"
edition = "2021"
publish = false

[dependencies]
uuid = { version = "*", features = ["v4"] }
chrono = "*"
axum = "*"
tokio = { version = "*", features = ["full"] }
tokio-stream = "*"
reqwest = { version = "*", default-features = false, features = ["stream"] }
bytes = "*"
futures-util = "*"
http = "*"
http-body-util = "*"
serde = { version = "*", features = ["derive"] }
serde_json = "*"
directories = "*"
hostname = "*"
