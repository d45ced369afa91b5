[package]
name = "bagua_os"
version = "0.1.0"
edition = "2021"
publish = false

[dependencies]
heapless = "0.8"
libm = "0.2"
spin = "0.9"
x86_64 = { version = "0.15", default-features = false, features = ["instructions"] }
