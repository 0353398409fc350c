[package]
name = "syracuse"
version = "0.1.0"
edition = "2021"
publish = false

[dependencies]
num-bigint = { version = "0.4", features = ["rand"] }
num-traits = "0.2"
num-integer = "0.1"
num-format = { version = "0.4", features = ["with-num-bigint"] }
rand = "0.8"
clap = "4"
csv = "1"
