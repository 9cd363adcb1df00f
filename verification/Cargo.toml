[package]
name = "atbswp"
version = "0.1.0"
edition = "2021"
publish = false

[dependencies]
libc = "0.2"
x11rb = { version = "0.13", features = ["record"] }
