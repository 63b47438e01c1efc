[package]
name = "static_dock"
version = "0.3.0"
edition = "2021"
publish = false

[dependencies]
qrcodegen = "1.8"
