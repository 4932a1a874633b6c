[package]
name = "aegisproxy"
version = "0.1.0"
edition = "2021"
publish = false

[dependencies]
http = "=1.5.0"
ipnet = "=2.12.2"
url = "=2.5.8"
serde = { version = "=1.0.229", features = ["derive"] }
toml = "=0.8.23"
serde_json = "1"
sha2 = "0.10"
base64 = "0.22"
argon2 = "0.5"
age = "0.11"
