[package]
name = "proton"
version = "0.1.0"
edition = "2021"
publish = false

[dependencies]
libc = "=0.2.190"
libffi = "=5.2.0"
libloading = "=0.9.0"
