[package]
name = "nau"
version = "0.1.0"
edition = "2021"
publish = false

[dependencies]
base64 = "=0.22.1"
chacha20poly1305 = "=0.10.1"
pbkdf2 = "=0.12.2"
sha2 = "=0.10.9"
rand = "=0.8.8"
hex = "=0.4.3"
urlencoding = "=2.1.3"
regex-syntax = "=0.8.11"
nostr = { version = "=0.43.1", features = ["nip04", "nip47", "nip57"] }
nostr-sdk = "=0.43.0"
lightning-invoice = "=0.34.1"
serde = { version = "=1.0.229", features = ["derive"] }
serde_json = "=1.0.154"
chrono = "=0.4.45"
tokio = { version = "=1.54.1", features = ["full"] }
futures-util = "=0.3.34"
async-tungstenite = { version = "=0.35.0", features = ["tokio-runtime", "tokio-rustls-webpki-roots"] }
heed = "=0.23.1"
ureq = "=2.12.1"
anyhow = "=1.0.104"
env_logger = "=0.11.11"
