[package]
name = "oxidex"
version = "0.1.0"
edition = "2021"
publish = false

[dependencies]
serde_json = "=1.0.151"
serde_yaml = "=0.9.34"
serde-xml-rs = "=0.6.0"
toml = "=1.1.6"
