[package]
name = "msi"
version = "0.1.0"
edition = "2021"
publish = false

[dependencies]
cfb = "*"
encoding_rs = "0.8"
uuid = "1"
