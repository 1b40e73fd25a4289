[package]
name = "netbricks_nf"
version = "0.1.0"
edition = "2021"
publish = false

[dependencies]
rustls = "0.16"
serde_json = "1"
failure = "0.1"
headless_chrome = "0.9"
