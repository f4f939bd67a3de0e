[package]
name = "blog_core"
version = "0.1.0"
edition = "2021"
publish = false

[dependencies]
toml = "*"
uuid = { version = "*", features = ["v4"] }
chrono = "*"
comrak = "*"
axum = "*"
tokio = { version = "*", features = ["rt-multi-thread", "macros", "net"] }
