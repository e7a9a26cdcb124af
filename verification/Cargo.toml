[package]
name = "crooked_earth"
version = "0.1.0"
edition = "2021"
publish = false

[dependencies]
rand = "0.8"
strfmt = "0.2"
url = "2"
urlencoding = "2"
image = { version = "0.24", default-features = false, features = ["png", "jpeg"] }
anyhow = "1"
serde = { version = "1", features = ["derive"] }
serde_json = "1"
toml = "0.8"
sled = "0.34"
typed-sled = "*"
tokio = { version = "1", features = ["full"] }
futures = "0.3"
lazy_static = "1"
async-tempfile = "*"
crossbeam-channel = "0.5"
reqwest = { version = "0.11", default-features = false }
bytes = "1"
