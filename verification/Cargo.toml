[package]
name = "wi_mesh_login"
version = "0.1.0"
edition = "2021"
publish = false

[dependencies]
anyhow = "1"
clap = { version = "4", features = ["derive"] }
getrandom = "0.2"
if-addrs = "*"
keyring = { version = "3", features = ["linux-native", "windows-native"] }
md-5 = "0.10"
reqwest = { version = "0.12", default-features = false, features = ["blocking", "cookies", "multipart", "rustls-tls"] }
rpassword = "7"
scraper = "*"
serde_json = "1"
time = { version = "0.3", features = ["formatting"] }
url = "2"
