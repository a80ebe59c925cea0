[package]
name = "loco_protocol"
version = "0.1.0"
edition = "2021"
publish = false

[dependencies]
libaes = "0.7"
rsa = "0.9"
rand = "0.8"
sha1 = "0.10"
