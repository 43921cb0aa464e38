[package]
name = "b3engine"
version = "0.1.0"
edition = "2021"
publish = false

[dependencies]
blake3 = "*"
rayon = "*"

[dev-dependencies]
hex = "*"
