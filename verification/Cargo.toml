[package]
name = "xarxa"
version = "0.1.0"
edition = "2021"
publish = false

[dependencies]
byteorder = { version = "1", default-features = false }
heapless = "0.8"
