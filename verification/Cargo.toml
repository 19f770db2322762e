[package]
name = "p3d"
version = "0.1.0"
edition = "2021"
publish = false

[dependencies]
clap = "2"
genevo = "*"
num = "*"
num-derive = "*"
num-traits = "*"
