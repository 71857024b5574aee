[package]
name = "apr"
version = "0.1.0"
edition = "2021"
publish = false

[dependencies]
md-5 = "=0.10.6"
sha1 = "=0.10.7"
getrandom = "=0.2.17"
url = "=2.5.8"
aes = "0.8"
des = "0.8"
pbkdf2 = "0.12"
xml-rs = "0.8"
