[package]
name = "test_script"
version = "0.1.0"
edition = "2021"
publish = false

[dependencies]
indexmap = "2"
regex-syntax = "0.8"
itertools = "*"
colored = "*"
clap = { version = "4", features = ["derive"] }
