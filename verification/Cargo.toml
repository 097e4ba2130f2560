[package]
name = "qsim_exact"
version = "0.1.0"
edition = "2021"
publish = false

[dependencies]
rand = "*"
