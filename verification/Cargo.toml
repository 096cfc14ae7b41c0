[package]
name = "math_interp"
version = "0.1.0"
edition = "2021"
publish = false

[dependencies]
nom = "8"
rand = "0.9"
