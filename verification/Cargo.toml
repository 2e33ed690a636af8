[package]
name = "vault_core"
version = "0.1.0"
edition = "2021"
publish = false

[dependencies]
aes-gcm = "0.10"
base64 = "0.22"
chrono = "0.4"
dirs = "*"
pbkdf2 = "0.12"
rand = "0.8"
sha2 = "0.10"
