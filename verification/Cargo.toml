[package]
name = "ditherpunk"
version = "0.1.0"
edition = "2021"
publish = false

[dependencies]
argh = "0.1"
image = "0.24"
rand = "0.8"
