[package]
name = "radbot"
version = "0.1.0"
edition = "2021"
publish = false

[dependencies]
rand = "0.8"
num-integer = "0.1"
clap = { version = "3", features = ["derive"] }
ordered-float = "3"
