[package]
name = "syl"
version = "0.1.0"
edition = "2021"
publish = false

[dependencies]
num-bigint = "0.4"
num-traits = "0.2"
clap = { version = "4", features = ["derive"] }
lazy_static = "1"
