[package]
name = "mistv"
version = "0.1.0"
edition = "2021"
publish = false

[dependencies]
anyhow = "1"
arboard = "3"
base64 = "0.22"
chacha20poly1305 = "0.10"
chrono = "0.4"
clap = { version = "4", features = ["derive"] }
colored = "2"
crossterm = "0.25"
fake = "4"
futures-util = "0.3"
hex = "0.4"
hkdf = "0.12"
hmac = "0.12"
image = { version = "0.25", default-features = false, features = ["png"] }
md-5 = "0.10"
open = "5"
rand = "0.9"
regex = "1"
rpassword = "7"
serde = { version = "1", features = ["derive"] }
serde_json = { version = "1", features = ["preserve_order"] }
sha2 = "0.10"
supports-color = "3"
tempfile = "3"
tokio = { version = "1", features = ["full"] }
tui = "0.19"
unicode-segmentation = "1"
unicode-width = "0.2"
uuid = { version = "1", features = ["v4"] }
x25519-dalek = { version = "2", features = ["static_secrets"] }
