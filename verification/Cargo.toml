[package]
name = "gemini"
version = "0.1.0"
edition = "2021"
publish = false

[dependencies]
sha2 = "=0.11.0"
url = "=2.5.8"
rustls = { version = "=0.19.1", features = ["dangerous_configuration"] }
webpki = "=0.21.4"
x509-parser = "=0.18.1"
thiserror = "=2.0.21"
