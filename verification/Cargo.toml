[package]
name = "siteserve"
version = "0.1.0"
edition = "2021"
publish = false

[dependencies]
axum = "*"
clap = { version = "*", features = ["derive"] }
mime_guess = "*"
serde_json = "*"
tokio = { version = "*", features = ["full"] }
