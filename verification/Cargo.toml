[package]
name = "sharefetch"
version = "0.1.0"
edition = "2021"
publish = false

[dependencies]
url = "=2.5.8"
reqwest = { version = "=0.13.5", default-features = false, features = ["cookies", "native-tls"] }
reqwest_cookie_store = "=0.10.0"
tokio-util = "=0.7.19"
anyhow = "=1.0.104"
