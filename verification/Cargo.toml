[package]
name = "much"
version = "0.1.0"
edition = "2021"
publish = false

[dependencies]
rust-argon2 = "*"
base64 = "0.13"
rand = "0.8"
clap = "4"
futures = "0.3"
hyper = { version = "0.14", features = ["server", "http1", "tcp"] }
tokio = { version = "1", features = ["full"] }
tokio-util = { version = "0.7", features = ["codec"] }
tracing = "0.1"
tracing-subscriber = "0.3"
