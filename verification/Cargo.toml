[package]
name = "trex"
version = "0.1.0"
edition = "2021"
publish = false

[dependencies]
number_range = "*"
