[package]
name = "cddlcat"
version = "0.1.0"
edition = "2021"
publish = false

[dependencies]
cddl-cat = "=0.3.3"
pyo3 = "=0.30.1"
