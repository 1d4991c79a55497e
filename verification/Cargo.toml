[package]
name = "misaki_rs"
version = "0.1.0"
edition = "2021"
publish = false

[dependencies]
regex = "1"
num2words = "*"
espeakng = "*"
serde = { version = "1", features = ["derive"] }
serde_json = "1"
