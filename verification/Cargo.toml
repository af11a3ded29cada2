[package]
name = "gate"
version = "0.1.0"
edition = "2021"
publish = false

[dependencies]
rustc_apfloat = "*"
clap = "*"
rustyline = "*"
