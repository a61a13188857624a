[package]
name = "hips"
version = "0.1.0"
edition = "2021"
publish = false

[dependencies]
ring = "*"
base64 = "0.13"
serde = { version = "*", features = ["derive"] }
serde_yaml = "*"
serde_json = "*"
tinytemplate = "*"
snailquote = "*"
