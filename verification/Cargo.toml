[package]
name = "secp256r1"
version = "0.1.0"
edition = "2021"
publish = false

[dependencies]
p256 = "0.13"
k256 = "0.13"
