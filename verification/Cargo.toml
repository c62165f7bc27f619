[package]
name = "texkit"
version = "0.1.0"
edition = "2021"
publish = false

[dependencies]
image = { version = "*", default-features = false }
xml-rs = "*"
resvg = "*"
serde = { version = "*", features = ["derive"] }
serde_json = "*"
serde_yaml = "*"
