[package]
name = "komora"
version = "0.1.0"
edition = "2021"
publish = false

[dependencies]
crc32fast = "=1.5.3"
fst = "0.4"

[dev-dependencies]
rand = "=0.8.8"
