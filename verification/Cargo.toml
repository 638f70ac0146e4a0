[package]
name = "captcha_engine"
version = "0.1.0"
edition = "2021"
publish = false

[dependencies]
rand = "0.8"
dashmap = "5"
usvg = "0.39"
resvg = "0.39"
tiny-skia = "0.11"
axum = "0.7"
tokio = { version = "1", features = ["full"] }
serde = { version = "1", features = ["derive"] }
tracing-subscriber = "0.3"
