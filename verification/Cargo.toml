[package]
name = "sigv4core"
version = "0.1.0"
edition = "2021"
publish = false

[dependencies]
aws-sigv4 = "=1.6.0"
sha2 = "=0.11.0"
hex = "=0.4.3"
