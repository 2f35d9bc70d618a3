[package]
name = "spider"
version = "0.1.0"
edition = "2021"
publish = false

[dependencies]
md5 = "0.7"
scraper = "*"
url = "2"
serde = { version = "1", features = ["derive"] }
serde_json = "1"
async-std = { version = "1", features = ["attributes"] }
tide = "0.16"
surf = { version = "2", default-features = false, features = ["h1-client-rustls"] }
