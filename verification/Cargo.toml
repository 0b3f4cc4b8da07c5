[package]
name = "task_io"
version = "0.1.0"
edition = "2021"
publish = false

[dependencies]
serde_json = { version = "1", features = ["preserve_order"] }
glob = "0.3"
reqwest = { version = "0.11", features = ["blocking", "json"] }
pyo3 = "0.20"
pythonize = "0.20"
