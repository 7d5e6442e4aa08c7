[package]
name = "call_params"
version = "0.1.0"
edition = "2021"
publish = false

[dependencies]
pyo3 = "=0.30.1"
derive_more = { version = "=2.1.1", features = ["from"] }
