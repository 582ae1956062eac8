[package]
name = "asymptote_core"
version = "0.1.0"
edition = "2021"
publish = false

[dependencies]
rand_core = "*"
rand_chacha = "*"
