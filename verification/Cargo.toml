[package]
name = "rgit"
version = "0.1.0"
edition = "2021"
publish = false

[dependencies]
rust-crypto = "0.2"
flate2 = "1"
rand = "0.8"
