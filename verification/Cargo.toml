[package]
name = "curlpit"
version = "0.1.0"
edition = "2021"
publish = false

[dependencies]
anyhow = "*"
chrono = "*"
clap = { version = "*", features = ["derive"] }
curl-parser = { version = "*", default-features = false }
dotenvy = "*"
hex = "*"
inquire = "*"
petname = "*"
reqwest = { version = "*", default-features = false, features = ["blocking"] }
serde = { version = "*", features = ["derive"] }
serde_json = "*"
shell-words = "*"
url = "*"
uuid = { version = "*", features = ["v4"] }
walkdir = "*"
