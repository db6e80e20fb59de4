[package]
name = "candy"
version = "0.1.0"
edition = "2021"
publish = false

[dependencies]
flate2 = "=1.1.10"
hpack = "=0.3.0"
base64 = "=0.22.1"
crc32fast = "=1.5.4"
md5 = "=0.7.0"
sha1 = "=0.10.7"
hmac = "=0.12.1"
clap = { version = "=4.6.7", features = ["derive"] }
toml = "=0.8.23"
serde = { version = "=1.0.229", features = ["derive"] }
dashmap = "=6.2.1"
http = "=1.5.0"
chrono = { version = "=0.4.45", default-features = false, features = ["clock", "std"] }
