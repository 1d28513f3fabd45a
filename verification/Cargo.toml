[package]
name = "filebox"
version = "0.1.0"
edition = "2021"
publish = false

[dependencies]
encoding_rs = "0.8"
unicode-normalization = "0.1"
cjk = "*"
walkdir = "2"
clap = { version = "4", features = ["derive"] }
