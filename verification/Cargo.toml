[package]
name = "dsvn"
version = "0.1.0"
edition = "2021"
publish = false

[dependencies]
sha2 = "=0.10.9"
sha1 = "=0.10.7"
base64 = "=0.21.7"
hex = "=0.4.3"
zstd = "=0.13.4"
md5 = "=0.7.0"
uuid = { version = "=1.29.0", features = ["v4"] }
chrono = "=0.4.45"
serde = { version = "=1.0.229", features = ["derive"] }
serde_json = "=1.0.154"
bincode = "=1.3.3"
anyhow = "=1.0.104"
quick-xml = "0.36"

[dev-dependencies]
regex = "=1.13.1"
tempfile = "=3.27.0"
