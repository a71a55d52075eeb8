[package]
name = "memfs"
version = "0.1.0"
edition = "2021"
publish = false

[dependencies]
time = "0.1"
fuse = "0.3"
libc = "0.2"
env_logger = "0.6"
