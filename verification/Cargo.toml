[package]
name = "velocity_proxy"
version = "0.1.0"
edition = "2021"
publish = false

[dependencies]
hmac = "0.12"
sha2 = "0.10"
tokio = { version = "1", features = ["net", "io-util", "macros", "rt-multi-thread", "signal", "fs"] }
tokio-util = "0.7"
tracing = "0.1"
tracing-subscriber = "0.3"
serde = { version = "1", features = ["derive"] }
toml = "0.8"
toml-example = "*"
