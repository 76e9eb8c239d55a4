[package]
name = "line_diff"
version = "0.1.0"
edition = "2021"
publish = false

[dependencies]
pyo3 = "0.20"
walkdir = "2"

[dev-dependencies]
diff = "0.1"
