[package]
name = "orbit_sim"
version = "0.1.0"
edition = "2021"
publish = false

[dependencies]
dashu-float = "*"
dashu-int = "*"
dashu-base = "*"
