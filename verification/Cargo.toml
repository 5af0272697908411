[package]
name = "md4rip"
version = "0.1.0"
edition = "2021"
publish = false

[dependencies]
block-buffer = "0.7"
rand = "0.8"
md4 = "*"
structopt = "*"
