[package]
name = "uring_responder"
version = "0.1.0"
edition = "2021"
publish = false

[dependencies]
io-uring = "*"
libc = "*"
socket2 = "*"
