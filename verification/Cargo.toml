[package]
name = "yamlscript"
version = "0.1.0"
edition = "2021"
publish = false

[dependencies]
yaml-rust = "0.4"
libc = "0.2"
linked-hash-map = "0.5"
