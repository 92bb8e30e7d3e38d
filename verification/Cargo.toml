[package]
name = "w3replay"
version = "0.1.0"
edition = "2021"
publish = false

[dependencies]
bytes = "0.5"
flate2 = "1"
