[package]
name = "minecrust"
version = "0.1.0"
edition = "2021"
publish = false

[dependencies]
bracket-noise = "*"
splines = "*"
