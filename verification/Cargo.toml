[package]
name = "dir-cache"
version = "0.1.0"
edition = "2021"
publish = false

[dependencies]
lz4 = "1"

[dev-dependencies]
tempfile = "3"
