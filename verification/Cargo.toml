[package]
name = "apk"
version = "0.1.0"
edition = "2021"
publish = false

[dependencies]
anyhow = "=1.0.104"
xcommon = "=0.3.0"
zip = { version = "=0.6.6", default-features = false, features = ["deflate"] }

[dev-dependencies]
rand = "=0.8.8"
rsa = "=0.7.2"
