[package]
name = "bot_rs"
version = "0.1.0"
edition = "2021"
publish = false

[dependencies]
urlencoding = "=2.1.3"
ferrous-opencc = "=0.4.0"
jieba-rs = "=0.11.0"
serde = { version = "=1.0.229", features = ["derive"] }
serde_json = "=1.0.154"
base64 = "=0.23.1"
url = "=2.5.8"
aes = "=0.8.4"
ctr = "=0.9.2"
cbc = { version = "=0.1.2", features = ["alloc"] }
sha1 = "=0.10.7"
oxideav-mp4 = "*"
