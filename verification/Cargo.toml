[package]
name = "vroomrs"
version = "0.1.0"
edition = "2021"
publish = false

[dependencies]
chrono = { version = "0.4", features = ["serde"] }
fnv_rs = "*"
once_cell = "1"
pyo3 = "*"
regex = "1"
serde = { version = "1", features = ["derive"] }
serde_json = "1"
