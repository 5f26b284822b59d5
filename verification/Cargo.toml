[package]
name = "enard"
version = "0.1.0"
edition = "2021"
publish = false

[dependencies]
cipher = "0.4"
chacha20 = "0.9"
hmac = "0.12"
sha2 = "0.10"
digest = "0.10"
crypto-common = "0.1"
byteorder = "1"
rand = "0.8"
thiserror = "1"
anyhow = "1"
clap = { version = "3.2", features = ["derive"] }
env_logger = "0.9"
log = "0.4"
tempfile = "3"
