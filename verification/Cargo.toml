[package]
name = "todoz"
version = "0.1.0"
edition = "2021"
publish = false

[dependencies]
colored = "*"
dirs = "*"

[dev-dependencies]
serde_json = "*"
