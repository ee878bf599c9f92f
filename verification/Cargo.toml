[package]
name = "lmdb"
version = "0.1.0"
edition = "2021"
publish = false

[dependencies]
byteorder = "1"
fs4 = "*"
libc = "0.2"
num = "0.4"

[dev-dependencies]
rand = "0.8"
