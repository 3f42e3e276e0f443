[package]
name = "recommendation"
version = "0.1.0"
edition = "2021"
publish = false

[dependencies]
csv = "*"
ndarray = "*"
serde = "*"
serde_derive = "*"
