[package]
name = "ber_header"
version = "0.1.0"
edition = "2021"
publish = false

[dependencies]
hex = "0.4"
pyo3 = "*"
