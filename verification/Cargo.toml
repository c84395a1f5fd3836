[package]
name = "otp"
version = "0.1.0"
edition = "2021"
publish = false

[dependencies]
anyhow = "1"
clap = { version = "4", features = ["derive"] }
data-encoding = "2"
hmac = "*"
sha1 = "*"
sha2 = "*"
