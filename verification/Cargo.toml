[package]
name = "web-modules"
version = "0.1.0"
edition = "2021"
publish = false

[dependencies]
axum = { version = "=0.8.9", default-features = false }
clap = { version = "=4.6.7", features = ["derive"] }
getrandom = "=0.2.17"
http-body = "=1.1.0"
npm-utils = { version = "=0.6.2", features = ["cli"] }
serde_json = "=1.0.154"
tokio = { version = "=1.54.1", features = ["macros", "rt-multi-thread"] }
tower-layer = "=0.3.3"
tower-service = "=0.3.3"
