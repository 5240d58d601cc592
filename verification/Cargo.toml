[package]
name = "mini-mail-auth"
version = "0.1.0"
edition = "2021"
publish = false

[dependencies]
base64 = "0.22"
rsa = "0.9"
sha2 = { version = "0.10", features = ["oid"] }
