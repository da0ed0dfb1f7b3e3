[package]
name = "html_extractor"
version = "0.1.0"
edition = "2021"
publish = false

[dependencies]
reqwest = { version = "=0.12.28", default-features = false }
serde_json = { version = "=1.0.154", features = ["preserve_order"] }
serde_urlencoded = "=0.7.1"
