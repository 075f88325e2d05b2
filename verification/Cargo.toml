[package]
name = "osdp"
version = "0.3.1"
edition = "2021"
publish = false

[dependencies]
aes = "0.8"
