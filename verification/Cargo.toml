[package]
name = "squircle"
version = "0.1.0"
edition = "2021"
publish = false

[dependencies]
infer = "*"
num = "*"
serde = { version = "1", features = ["derive"] }
serde_json = "1"
zip = { version = "*", default-features = false, features = ["deflate"] }
