[package]
name = "reeos"
version = "0.1.0"
edition = "2021"
publish = false

[dependencies]
lazy_static = "1.4"
spin = "0.5.2"
volatile = "0.2.6"
x86_64 = { version = "0.14", default-features = false, features = ["instructions"] }
