[package]
name = "weflow"
version = "0.1.0"
edition = "2021"
publish = false

[dependencies]
serde_json = "=1.0.154"
libloading = "=0.8.9"
dirs = "=5.0.1"
reqwest = { version = "0.12", default-features = false }
