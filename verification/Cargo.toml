[package]
name = "keysearch"
version = "0.1.0"
edition = "2021"
publish = false

[dependencies]
bitcoin = "*"
rayon = "*"

[dev-dependencies]
hex = "*"
