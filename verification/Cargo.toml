[package]
name = "totp_gen"
version = "0.1.0"
edition = "2021"
publish = false

[dependencies]
anyhow = "*"
base32 = "*"
clap = { version = "*", features = ["derive"] }
dirs = "*"
hmac = "*"
serde_json = "*"
sha1 = "*"
