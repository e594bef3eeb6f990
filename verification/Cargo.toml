[package]
name = "ansi_sgr"
version = "0.1.0"
edition = "2021"
publish = false

[dependencies]
yew = "*"
