[package]
name = "tinyrender"
version = "0.1.0"
edition = "2021"
publish = false

[dependencies]
imagefmt = "4"
libc = "0.2"
