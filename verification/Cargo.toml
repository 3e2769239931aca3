[package]
name = "tinyhttpd"
version = "0.1.0"
edition = "2021"
publish = false

[dependencies]
uriparse = "*"
http_header = "*"
tokio = { version = "*", features = ["fs", "io-util", "macros", "net", "rt-multi-thread"] }
