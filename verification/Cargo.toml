[package]
name = "download_worker"
version = "0.1.0"
edition = "2021"
publish = false

[dependencies]
iced = { version = "0.12", default-features = false, features = ["tokio"] }
rand = "0.8"
tokio = { version = "1", features = ["sync", "time", "macros"] }
