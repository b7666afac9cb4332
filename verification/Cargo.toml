[package]
name = "merkle"
version = "0.1.0"
edition = "2021"
publish = false

[dependencies]
sha2 = "=0.10.9"
hex = "=0.4.3"

[dev-dependencies]
base64 = "=0.22.1"
