[package]
name = "dtach_rs"
version = "0.1.0"
edition = "2021"
publish = false

[dependencies]
getrandom = "0.3"
libc = "0.2"
crossterm = "0.28"
portable-pty = "0.8"
