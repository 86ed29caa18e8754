[package]
name = "riscbox"
version = "0.1.0"
edition = "2021"
publish = false

[dependencies]
aes = "*"
cbc = { version = "*", features = ["alloc", "block-padding"] }
pbkdf2 = { version = "*", features = ["hmac"] }
sha2 = "*"
