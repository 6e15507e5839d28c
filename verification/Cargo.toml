[package]
name = "trojan-server"
version = "0.1.0"
edition = "2021"
publish = false

[dependencies]
hex = "0.4"
rustls = "0.21"
rustls-pemfile = "1.0"
sha2 = "0.10"
tokio = { version = "1", features = ["io-util", "macros", "net", "rt-multi-thread", "sync", "time"] }
tokio-rustls = "0.24"
