[package]
name = "veneer"
version = "0.1.0"
edition = "2021"
publish = false

[dependencies]
sc = "*"
bitflags = "*"

[dev-dependencies]
itoa = "*"
