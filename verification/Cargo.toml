[package]
name = "termray"
version = "0.1.0"
edition = "2021"
publish = false

[dependencies]
rayon = "*"
crossterm = "*"
sha3 = "*"
hex = "*"
