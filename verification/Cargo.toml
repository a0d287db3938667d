[package]
name = "syncwave_core"
version = "0.1.0"
edition = "2021"
publish = false

[dependencies]
audiopus = "0.2"
cpal = "0.15"
pyo3 = "0.20"
