[package]
name = "gd_physics"
version = "0.1.0"
edition = "2021"
publish = false

[dependencies]
base64 = "*"
flate2 = "*"
serde_json = "*"
sfml = "*"
