[package]
name = "snurr"
version = "0.15.0"
edition = "2021"
publish = false

[dependencies]
quick-xml = "*"
