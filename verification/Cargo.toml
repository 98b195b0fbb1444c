[package]
name = "saber"
version = "0.1.0"
edition = "2021"
publish = false

[dependencies]
rand = "0.7"
sha3 = "0.8"
