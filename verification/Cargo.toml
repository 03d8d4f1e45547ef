[package]
name = "baskethub"
version = "0.1.0"
edition = "2021"
publish = false

[dependencies]
base64 = "*"
git2 = "*"
hex = "*"
pwhash = "*"
rand = "0.8"
serde = { version = "*", features = ["derive"] }
serde_json = "*"
