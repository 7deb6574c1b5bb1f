[package]
name = "coomi"
version = "0.1.0"
edition = "2021"
publish = false

[dependencies]
regex = "1"
base64 = "0.22"
url = "2"
serde_json = "1"
anyhow = "1"
async-trait = "0.1"
tokio = { version = "1", features = ["sync", "rt", "macros", "time"] }
reqwest = { version = "0.12", default-features = false, features = ["rustls-tls", "cookies"] }
