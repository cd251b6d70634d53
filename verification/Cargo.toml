[package]
name = "http-file-server"
version = "0.1.0"
edition = "2021"
publish = false

[dependencies]
libc = "0.2"
rustls = { version = "0.23", default-features = false, features = ["std", "ring", "tls12", "logging"] }
rustls-pemfile = "2"
