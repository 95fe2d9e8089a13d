[package]
name = "gold_pass_bot"
version = "0.1.0"
edition = "2021"
publish = false

[dependencies]
arc-swap = "1"
axum = "0.6"
chrono = "0.4"
clap = "4"
once_cell = "1"
prometheus = "0.13"
reqwest = { version = "0.11", features = ["json"] }
rust-s3 = { version = "0.33", default-features = false, features = ["tokio-rustls-tls"] }
rust_xlsxwriter = "*"
serde = { version = "1", features = ["derive"] }
serde_json = "1"
serenity = "0.11"
tokio = { version = "1", features = ["full"] }
tracing = "0.1"
tracing-subscriber = "0.3"
