[package]
name = "vocalcode"
version = "0.1.0"
edition = "2021"
publish = false

[dependencies]
anyhow = "1"
base64 = "0.22"
env_logger = "0.11"
fs2 = "0.4"
hound = "3.5"
log = "0.4"
rpassword = "7"
serde = { version = "1", features = ["derive"] }
serde_json = "1"
sha2 = "0.10"
tao = "*"
toml = "0.8"
ureq = { version = "3", features = ["json"] }
wry = "*"
