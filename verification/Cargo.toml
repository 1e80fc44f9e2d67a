[package]
name = "tar_vault_sync"
version = "0.1.0"
edition = "2021"
publish = false

[dependencies]
argon2 = "0.5"
base64 = "0.22"
chacha20poly1305 = "0.10"
csv-core = "0.1"
fs2 = "0.4"
keyring = "3"
rand = "0.8"
rpassword = "7"
serde = { version = "1", features = ["derive"] }
serde_json = "1"
sha2 = "0.10"
tempfile = "3"
tokio = { version = "1", features = ["rt-multi-thread", "net", "io-util", "time", "sync", "macros"] }
ureq = "3"
url = "2"
webbrowser = "1"
yaml-edit = "*"
zeroize = "1"
