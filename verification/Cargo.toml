[package]
name = "logquest"
version = "0.1.0"
edition = "2021"
publish = false

[dependencies]
fancy-regex = "=0.20.0"
regex-syntax = "=0.8.11"
uuid = { version = "=1.29.0", features = ["v4"] }
rand = "=0.8.8"
ring = "=0.17.14"
base64 = "=0.22.1"
machine-uid = "=0.6.0"
chrono = "=0.4.45"
serde = { version = "=1.0.229", features = ["derive"] }
serde_json = "=1.0.154"
toml = "=1.1.8"
thiserror = "=2.0.21"
clap = { version = "=4.6.7", features = ["derive"] }
dirs = "=7.0.0"
zip = { version = "=9.2.2", default-features = false, features = ["deflate"] }
xml-rs = "=1.0.0"
