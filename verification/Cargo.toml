[package]
name = "guwah"
version = "0.1.0"
edition = "2021"
publish = false

[dev-dependencies]
scanf = "=1.3.1"
