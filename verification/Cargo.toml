[package]
name = "rpppp"
version = "0.1.0"
edition = "2021"
publish = false

[dependencies]
tsc-time = "*"
glommio = "*"
rand = "*"
