[package]
name = "cipherclip"
version = "0.1.0"
edition = "2021"
publish = false

[dependencies]
aes-gcm-siv = "0.11"
arboard = "3"
base64 = "0.22"
chacha20poly1305 = "0.10"
clipboard-rs = "0.2"
enigo = "0.1"
hex = "0.4"
hkdf = "0.12"
hmac = "0.12"
image = { version = "0.25", default-features = false, features = ["jpeg", "png", "webp", "gif", "bmp"] }
kamadak-exif = "0.6"
keyring = "3"
local-ip-address = "0.6"
log = "0.4"
rusqlite = { version = "0.32", features = ["bundled"] }
serde = { version = "1", features = ["derive"] }
serde_json = "1"
sha2 = "0.10"
uuid = { version = "1", features = ["v4"] }
whoami = "2"
