[package]
name = "gibberish"
version = "0.1.0"
edition = "2021"
publish = false

[dependencies]
blake3 = "=1.8.7"
chacha20poly1305 = "=0.10.1"
x25519-dalek = { version = "=2.0.1", features = ["static_secrets"] }
crc32fast = "=1.5.4"
hkdf = "=0.12.4"
sha2 = "=0.10.9"
bip39 = "=2.2.2"
zeroize = "=1.9.1"
serde = { version = "=1.0.229", features = ["derive"] }
serde_json = "=1.0.154"
tokio = { version = "=1.54.1", features = ["rt-multi-thread", "macros", "net", "sync", "time"] }
tokio-tungstenite = "=0.24.0"
futures-util = "=0.3.34"
rusqlite = { version = "=0.32.1", features = ["bundled"] }
serialport = { version = "=4.10.1", default-features = false }
thiserror = "=1.0.69"
log = "=0.4.35"
env_logger = "=0.11.11"
qrcode = { version = "=0.14.1", default-features = false, features = ["svg"] }
arboard = { version = "3", default-features = false }
