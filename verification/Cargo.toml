[package]
name = "prototty"
version = "0.1.0"
edition = "2021"
publish = false

[dependencies]
bincode = "1"
serde = "1"
serde_json = "1"
serde_yaml = "0.8"
toml = "0.5"
