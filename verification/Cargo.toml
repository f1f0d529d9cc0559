[package]
name = "scel2rime"
version = "0.1.0"
edition = "2021"
publish = false

[dependencies]
encoding = "*"
clap = "2"
