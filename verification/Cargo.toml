[package]
name = "slur"
version = "0.1.0"
edition = "2021"
publish = false

[dependencies]
imgref = "1"
imgref-iter = "*"
