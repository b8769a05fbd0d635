[package]
name = "narou_rs"
version = "0.1.0"
edition = "2021"
publish = false

[dependencies]
argon2 = "=0.5.3"
base64 = "=0.22.1"
chacha20poly1305 = "=0.10.1"
chrono = { version = "=0.4.45", default-features = false, features = ["std", "clock"] }
crc32fast = "=1.5.4"
encoding_rs = "=0.8.44"
fancy-regex = "*"
getrandom = "=0.3.4"
hex = "=0.4.3"
image = { version = "=0.25.10", default-features = false, features = ["png", "jpeg"] }
regex = "=1.13.1"
serde = { version = "=1.0.229", features = ["derive"] }
serde_json = "=1.0.154"
serde_yaml = "=0.9.34"
sha2 = "=0.10.9"
thiserror = "=2.0.21"
url = "=2.5.8"
zip = { version = "=2.6.1", default-features = false, features = ["deflate"] }
