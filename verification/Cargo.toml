[package]
name = "rserver"
version = "0.1.0"
edition = "2021"
publish = false

[dependencies]
memchr = "2"
libc = "0.2"
openssl = "0.10"
