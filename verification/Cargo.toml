[package]
name = "momo_core"
version = "0.1.0"
edition = "2021"
publish = false

[dependencies]
base64 = "=0.22.1"
crc32fast = "=1.5.4"
futures-util = "0.3"
hex = "=0.4.3"
image = { version = "=0.25.10", default-features = false, features = ["png"] }
reqwest = { version = "0.12", default-features = false, features = ["json", "stream", "rustls-tls"] }
semver = "1"
serde = { version = "=1.0.229", features = ["derive"] }
serde_json = "=1.0.154"
sha2 = "=0.10.9"
tempfile = "=3.27.0"
tiktoken-rs = "=0.12.1"
tokio = { version = "1", features = ["rt-multi-thread", "macros", "time"] }
toml = "=1.1.8"
url = "2"
uuid = "=1.29.0"
wuff = "=0.2.9"
zip = { version = "*", default-features = false, features = ["deflate"] }
zstd = "=0.13.4"
