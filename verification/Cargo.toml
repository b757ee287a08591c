[package]
name = "tls_unbuffered"
version = "0.1.0"
edition = "2021"
publish = false

[dependencies]
aws-lc-rs = "*"
