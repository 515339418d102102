[package]
name = "boost"
version = "0.1.0"
edition = "2021"
publish = false

[dependencies]
bcrypt = "*"
x25519-dalek = "2"
rand = "0.8"
