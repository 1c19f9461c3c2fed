[package]
name = "connector_agent"
version = "0.1.0"
edition = "2021"
publish = false

[dependencies]
chrono = "*"
rust_decimal = "*"
ndarray = "*"
