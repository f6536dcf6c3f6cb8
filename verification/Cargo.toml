[package]
name = "http_server_iouring_rev"
version = "0.1.0"
edition = "2021"
publish = false

[dependencies]
slab = "*"
io-uring = "*"
libc = "*"
